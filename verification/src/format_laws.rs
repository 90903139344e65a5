//! What holds of cutting a statement into sub-statements and putting it
//! together again.

use crate::format::{
    first_marker, is_batch_marker, joined, lemma_locate_start, segment, segments_scan,
    statement_at_offset, sub_statements, total_lines, with_pretty,
};
use crate::text::{is_blank, is_white_space, lines_of, lines_scan, without_carriage_return};
use vstd::prelude::*;

verus! {

/// Whether a text holds no line feed.
pub open spec fn has_no_line_feed(line: Seq<char>) -> bool {
    forall|k: int| 0 <= k < line.len() ==> line[k] != '\n'
}

/// Whether a text is one line that would lose nothing if it were cut out of
/// a text again: without a line feed, and without a carriage return at its
/// end.
pub open spec fn is_plain_line(line: Seq<char>) -> bool {
    &&& has_no_line_feed(line)
    &&& line.len() > 0 ==> line.last() != '\r'
}

/// Scanning a text that goes on behind a first part is scanning what goes on
/// alone.
proof fn lemma_scan_shift(pre: Seq<char>, rest: Seq<char>, start: int, pos: int)
    requires
        0 <= start <= pos,
    ensures
        lines_scan(pre + rest, pre.len() + start, pre.len() + pos) == lines_scan(rest, start, pos),
    decreases rest.len() - pos,
{
    let s = pre + rest;
    let n = pre.len() as int;
    if pos >= rest.len() {
        if start < rest.len() {
            assert(s.subrange(n + start, s.len() as int) =~= rest.subrange(
                start,
                rest.len() as int,
            ));
        }
    } else {
        assert(s[n + pos] == rest[pos]);
        if rest[pos] == '\n' {
            assert(s.subrange(n + start, n + pos) =~= rest.subrange(start, pos));
            lemma_scan_shift(pre, rest, pos + 1, pos + 1);
        } else {
            lemma_scan_shift(pre, rest, start, pos + 1);
        }
    }
}

/// The lines of a text that ends in a line feed, followed by more text, are
/// its own lines followed by those of the rest.
proof fn lemma_scan_split(head: Seq<char>, rest: Seq<char>, start: int, pos: int)
    requires
        head.len() > 0,
        head.last() == '\n',
        0 <= start <= pos <= head.len(),
        forall|k: int| start <= k < pos ==> head[k] != '\n',
    ensures
        lines_scan(head + rest, start, pos) == lines_scan(head, start, pos) + lines_of(rest),
    decreases head.len() - pos,
{
    let s = head + rest;
    if pos == head.len() {
        assert(start == pos) by {
            if start < pos {
                assert(head[pos - 1] != '\n');
            }
        }
        lemma_scan_shift(head, rest, 0, 0);
        assert(lines_scan(head, start, pos) =~= Seq::<Seq<char>>::empty());
        assert(Seq::<Seq<char>>::empty() + lines_of(rest) =~= lines_of(rest));
    } else {
        assert(s[pos] == head[pos]);
        if head[pos] == '\n' {
            assert(s.subrange(start, pos) =~= head.subrange(start, pos));
            lemma_scan_split(head, rest, pos + 1, pos + 1);
            let first = seq![without_carriage_return(head.subrange(start, pos))];
            assert(first + (lines_scan(head, pos + 1, pos + 1) + lines_of(rest)) =~= (first
                + lines_scan(head, pos + 1, pos + 1)) + lines_of(rest));
        } else {
            lemma_scan_split(head, rest, start, pos + 1);
        }
    }
}

/// A line with a line feed behind it is that one line, without the carriage
/// return that it may end in.
proof fn lemma_one_line(line: Seq<char>, pos: int)
    requires
        has_no_line_feed(line),
        0 <= pos <= line.len(),
    ensures
        lines_scan(line + seq!['\n'], 0, pos) == seq![without_carriage_return(line)],
    decreases line.len() - pos,
{
    let s = line + seq!['\n'];
    if pos == line.len() {
        assert(s[pos] == '\n');
        assert(s.subrange(0, pos) =~= line);
        assert(lines_scan(s, pos + 1, pos + 1) =~= Seq::<Seq<char>>::empty());
        assert(seq![without_carriage_return(line)] + Seq::<Seq<char>>::empty() =~= seq![
            without_carriage_return(line),
        ]);
    } else {
        assert(s[pos] == line[pos]);
        lemma_one_line(line, pos + 1);
    }
}

/// The lines of a run that are left when the empty lines at its head are
/// dropped.
pub open spec fn kept(run: Seq<Seq<char>>) -> Seq<Seq<char>>
    decreases run.len(),
{
    if run.len() == 0 {
        Seq::empty()
    } else {
        let front = kept(run.drop_last());
        if front.len() == 0 && run.last().len() == 0 {
            Seq::empty()
        } else {
            front.push(run.last())
        }
    }
}

/// Whether every line of a run is a plain line and none is a marker.
pub open spec fn is_plain_run(run: Seq<Seq<char>>) -> bool {
    forall|k: int|
        0 <= k < run.len() ==> is_plain_line(#[trigger] run[k]) && !is_batch_marker(run[k])
}

/// Dropping the empty lines at the head of a run changes nothing of its text.
proof fn lemma_kept(run: Seq<Seq<char>>)
    ensures
        joined(kept(run)) == joined(run),
        joined(run).len() == 0 <==> kept(run).len() == 0,
        is_plain_run(run) ==> is_plain_run(kept(run)),
    decreases run.len(),
{
    if run.len() > 0 {
        let front = run.drop_last();
        lemma_kept(front);
        let k = kept(front);
        if !(k.len() == 0 && run.last().len() == 0) {
            assert(kept(run).drop_last() =~= k);
            assert(kept(run).last() == run.last());
        }
        if is_plain_run(run) {
            assert(is_plain_run(front)) by {
                assert forall|i: int| 0 <= i < front.len() implies is_plain_line(
                    #[trigger] front[i],
                ) && !is_batch_marker(front[i]) by {
                    assert(front[i] == run[i]);
                }
            }
            assert forall|i: int| 0 <= i < kept(run).len() implies is_plain_line(
                #[trigger] kept(run)[i],
            ) && !is_batch_marker(kept(run)[i]) by {
                if i < k.len() {
                    assert(kept(run)[i] == k[i]);
                } else {
                    assert(kept(run)[i] == run[run.len() - 1]);
                }
            }
        }
    }
}

/// The text of a run of plain lines, cut into lines again, is the run
/// without the empty lines at its head.
proof fn lemma_lines_of_joined(run: Seq<Seq<char>>)
    requires
        is_plain_run(run),
        joined(run).len() > 0,
    ensures
        lines_of(joined(run) + seq!['\n']) == kept(run),
    decreases run.len(),
{
    let front = run.drop_last();
    let last = run.last();
    let head = joined(front);
    lemma_kept(front);
    lemma_kept(run);
    assert(is_plain_line(run[run.len() - 1]));
    assert(is_plain_run(front)) by {
        assert forall|i: int| 0 <= i < front.len() implies is_plain_line(#[trigger] front[i])
            && !is_batch_marker(front[i]) by {
            assert(front[i] == run[i]);
        }
    }
    lemma_one_line(last, 0);
    if head.len() == 0 {
        assert(kept(run) =~= seq![last]);
    } else {
        lemma_lines_of_joined(front);
        let first = head + seq!['\n'];
        let second = last + seq!['\n'];
        assert(joined(run) + seq!['\n'] =~= first + second);
        lemma_scan_split(first, second, 0, 0);
        assert(kept(front) + seq![last] =~= kept(front).push(last));
    }
}

/// Whether a text can be a sub-statement: it is not blank, and it is the
/// text of a run of plain lines none of which is a marker.
pub open spec fn is_piece(text: Seq<char>) -> bool {
    &&& !is_blank(text)
    &&& exists|run: Seq<Seq<char>>| is_plain_run(run) && #[trigger] joined(run) == text
}

/// Whether a line can stand before a sub-statement: it holds no line feed,
/// and, cut out of a text again, it is a marker.
pub open spec fn is_marker_line(line: Seq<char>) -> bool {
    has_no_line_feed(line) && is_batch_marker(without_carriage_return(line))
}

/// A text as it comes back when it stands between two markers: its lines,
/// put together again. Carriage returns before a line feed and empty lines
/// at its head are lost on the way.
pub open spec fn as_cut(text: Seq<char>) -> Seq<char> {
    joined(lines_of(text + seq!['\n']))
}

/// Whether a text can stand between two markers: it is not blank, and none
/// of its lines is a marker.
pub open spec fn is_segment(text: Seq<char>) -> bool {
    &&& !is_blank(text)
    &&& forall|k: int|
        0 <= k < lines_of(text + seq!['\n']).len() ==> !is_batch_marker(
            #[trigger] lines_of(text + seq!['\n'])[k],
        )
}

/// Each text as it comes back.
pub open spec fn all_as_cut(texts: Seq<Seq<char>>) -> Seq<Seq<char>> {
    Seq::new(texts.len(), |i: int| as_cut(texts[i]))
}

/// A statement put together: before each text its marker, each on lines of
/// its own.
pub open spec fn rebuilt(pieces: Seq<Seq<char>>, markers: Seq<Seq<char>>) -> Seq<char>
    decreases pieces.len(),
{
    if pieces.len() == 0 || markers.len() == 0 {
        Seq::empty()
    } else {
        markers[0] + seq!['\n'] + pieces[0] + seq!['\n'] + rebuilt(
            pieces.drop_first(),
            markers.drop_first(),
        )
    }
}

/// Whether a text would lose nothing if it were cut into lines: it has no
/// carriage return before a line feed or at its end.
pub open spec fn keeps_no_carriage_return(text: Seq<char>) -> bool {
    &&& text.len() > 0 ==> text.last() != '\r'
    &&& forall|k: int| 0 <= k < text.len() - 1 && #[trigger] text[k] == '\r' ==> text[k + 1] != '\n'
}

/// Whether no line of a run holds a line feed and none is a marker.
pub open spec fn is_run(run: Seq<Seq<char>>) -> bool {
    forall|k: int|
        0 <= k < run.len() ==> !is_batch_marker(#[trigger] run[k]) && has_no_line_feed(run[k])
}

/// Whether a text is what a run of lines between two markers contributes.
pub open spec fn is_raw_piece(text: Seq<char>) -> bool {
    &&& !is_blank(text)
    &&& exists|run: Seq<Seq<char>>| is_run(run) && #[trigger] joined(run) == text
}

/// The lines that are left of a run whose text keeps no carriage return are
/// plain lines.
proof fn lemma_kept_is_plain(run: Seq<Seq<char>>)
    requires
        is_run(run),
        keeps_no_carriage_return(joined(run)),
    ensures
        is_plain_run(kept(run)),
    decreases run.len(),
{
    if run.len() > 0 {
        let front = run.drop_last();
        let last = run.last();
        let head = joined(front);
        let whole = joined(run);
        lemma_kept(front);
        assert(is_run(front)) by {
            assert forall|k: int| 0 <= k < front.len() implies !is_batch_marker(
                #[trigger] front[k],
            ) && has_no_line_feed(front[k]) by {
                assert(front[k] == run[k]);
            }
        }
        assert(!is_batch_marker(run[run.len() - 1]) && has_no_line_feed(run[run.len() - 1]));
        if head.len() > 0 {
            assert(whole =~= head + seq!['\n'] + last);
            assert(keeps_no_carriage_return(head)) by {
                assert(whole[head.len() - 1] == head.last());
                assert(whole[head.len() as int] == '\n');
                assert forall|k: int| 0 <= k < head.len() - 1 && #[trigger] head[k]
                    == '\r' implies head[k + 1] != '\n' by {
                    assert(whole[k] == head[k] && whole[k + 1] == head[k + 1]);
                }
            }
            lemma_kept_is_plain(front);
            if last.len() > 0 {
                assert(whole.last() == last.last());
            }
        }
        let k = kept(front);
        assert forall|i: int| 0 <= i < kept(run).len() implies is_plain_line(
            #[trigger] kept(run)[i],
        ) && !is_batch_marker(kept(run)[i]) by {
            if i < k.len() {
                assert(kept(run)[i] == k[i]);
            } else {
                assert(kept(run)[i] == last);
            }
        }
    }
}

/// What a run contributes can be a sub-statement of a statement put
/// together again, if it keeps no carriage return.
proof fn lemma_raw_piece(text: Seq<char>)
    requires
        is_raw_piece(text),
        keeps_no_carriage_return(text),
    ensures
        is_piece(text),
{
    let run = choose|run: Seq<Seq<char>>| is_run(run) && #[trigger] joined(run) == text;
    lemma_kept_is_plain(run);
    lemma_kept(run);
    assert(joined(kept(run)) == text);
}

/// Cutting lines that go on behind a first part is cutting what goes on
/// alone.
proof fn lemma_segments_shift(front: Seq<Seq<char>>, rest: Seq<Seq<char>>, start: int, pos: int)
    requires
        0 <= start <= pos,
        start <= rest.len(),
    ensures
        segments_scan(front + rest, front.len() + start, front.len() + pos) == segments_scan(
            rest,
            start,
            pos,
        ),
    decreases rest.len() - pos,
{
    let all = front + rest;
    let n = front.len() as int;
    if pos >= rest.len() {
        assert(all.subrange(n + start, all.len() as int) =~= rest.subrange(
            start,
            rest.len() as int,
        ));
    } else {
        assert(all[n + pos] == rest[pos]);
        if is_batch_marker(rest[pos]) {
            assert(all.subrange(n + start, n + pos) =~= rest.subrange(start, pos));
            lemma_segments_shift(front, rest, pos + 1, pos + 1);
        } else {
            lemma_segments_shift(front, rest, start, pos + 1);
        }
    }
}

/// Lines that are no markers are passed over.
proof fn lemma_segments_skip(lines: Seq<Seq<char>>, start: int, pos: int, end: int)
    requires
        0 <= start <= pos <= end <= lines.len(),
        forall|k: int| pos <= k < end ==> !is_batch_marker(#[trigger] lines[k]),
    ensures
        segments_scan(lines, start, pos) == segments_scan(lines, start, end),
    decreases end - pos,
{
    if pos < end {
        assert(!is_batch_marker(lines[pos]));
        lemma_segments_skip(lines, start, pos + 1, end);
    }
}

/// Whether every line is blank.
pub open spec fn are_blank(lines: Seq<Seq<char>>) -> bool {
    forall|i: int| 0 <= i < lines.len() ==> is_blank(#[trigger] lines[i])
}

/// The lines of a text are blank exactly where the text is.
proof fn lemma_blank_lines(s: Seq<char>, start: int, pos: int)
    requires
        0 <= start <= pos <= s.len(),
        forall|k: int| start <= k < pos ==> is_white_space(#[trigger] s[k]) && s[k] != '\n',
    ensures
        are_blank(lines_scan(s, start, pos)) <==> is_blank(s.subrange(start, s.len() as int)),
    decreases s.len() - pos,
{
    let out = lines_scan(s, start, pos);
    let tail = s.subrange(start, s.len() as int);
    if pos >= s.len() {
        if start < s.len() {
            assert(out[0] == tail);
        } else {
            assert(is_blank(tail));
        }
    } else if s[pos] == '\n' {
        let piece = s.subrange(start, pos);
        let line = without_carriage_return(piece);
        let rest = lines_scan(s, pos + 1, pos + 1);
        let behind = s.subrange(pos + 1, s.len() as int);
        lemma_blank_lines(s, pos + 1, pos + 1);
        assert(is_blank(line)) by {
            assert forall|k: int| 0 <= k < line.len() implies is_white_space(#[trigger] line[k]) by {
                assert(line[k] == s[start + k]);
            }
        }
        assert(out[0] == line);
        if are_blank(out) {
            assert forall|i: int| 0 <= i < rest.len() implies is_blank(#[trigger] rest[i]) by {
                assert(out[i + 1] == rest[i]);
            }
            assert forall|k: int| 0 <= k < tail.len() implies is_white_space(#[trigger] tail[k]) by {
                if start + k > pos {
                    assert(behind[start + k - pos - 1] == tail[k]);
                } else {
                    assert(tail[k] == s[start + k]);
                }
            }
        }
        if is_blank(tail) {
            assert forall|k: int| 0 <= k < behind.len() implies is_white_space(
                #[trigger] behind[k],
            ) by {
                assert(behind[k] == tail[pos + 1 - start + k]);
            }
            assert forall|i: int| 0 <= i < out.len() implies is_blank(#[trigger] out[i]) by {
                if i > 0 {
                    assert(out[i] == rest[i - 1]);
                }
            }
        }
    } else {
        assert(out == lines_scan(s, start, pos + 1));
        if is_white_space(s[pos]) {
            lemma_blank_lines(s, start, pos + 1);
        } else {
            assert(tail[pos - start] == s[pos]);
            lemma_ink_found(s, start, pos + 1, pos);
        }
    }
}

/// A character that is no white space, in a line that is still open, stands
/// in the line that comes out.
proof fn lemma_ink_found(s: Seq<char>, start: int, pos: int, ink: int)
    requires
        0 <= start <= ink < pos <= s.len(),
        !is_white_space(s[ink]),
        forall|k: int| start <= k < pos ==> s[k] != '\n',
    ensures
        !are_blank(lines_scan(s, start, pos)),
    decreases s.len() - pos,
{
    let out = lines_scan(s, start, pos);
    if pos >= s.len() {
        let line = s.subrange(start, s.len() as int);
        assert(out[0] == line);
        assert(line[ink - start] == s[ink]);
    } else if s[pos] == '\n' {
        let piece = s.subrange(start, pos);
        let line = without_carriage_return(piece);
        assert(out[0] == line);
        assert(piece[ink - start] == s[ink]);
        assert(!is_white_space(piece[ink - start]));
        assert(is_white_space('\r'));
        assert(line[ink - start] == s[ink]);
    } else {
        lemma_ink_found(s, start, pos + 1, ink);
    }
}

/// Two texts one behind the other are blank exactly where both are.
proof fn lemma_blank_add(a: Seq<char>, b: Seq<char>)
    ensures
        is_blank(a + b) <==> is_blank(a) && is_blank(b),
{
    let both = a + b;
    if is_blank(both) {
        assert forall|k: int| 0 <= k < a.len() implies is_white_space(#[trigger] a[k]) by {
            assert(both[k] == a[k]);
        }
        assert forall|k: int| 0 <= k < b.len() implies is_white_space(#[trigger] b[k]) by {
            assert(both[a.len() + k] == b[k]);
        }
    }
    if is_blank(a) && is_blank(b) {
        assert forall|k: int| 0 <= k < both.len() implies is_white_space(#[trigger] both[k]) by {
            if k < a.len() {
                assert(both[k] == a[k]);
            } else {
                assert(both[k] == b[k - a.len()]);
            }
        }
    }
}

/// The text of a run is blank exactly where each of its lines is.
proof fn lemma_joined_blank(run: Seq<Seq<char>>)
    ensures
        is_blank(joined(run)) <==> are_blank(run),
    decreases run.len(),
{
    if run.len() > 0 {
        let front = run.drop_last();
        let last = run.last();
        let head = joined(front);
        lemma_joined_blank(front);
        assert(is_white_space('\n'));
        lemma_blank_add(head, seq!['\n']);
        lemma_blank_add(head + seq!['\n'], last);
        assert(is_blank(seq!['\n']));
        if are_blank(run) {
            assert(is_blank(run[run.len() - 1]));
            assert forall|i: int| 0 <= i < front.len() implies is_blank(#[trigger] front[i]) by {
                assert(front[i] == run[i]);
            }
        }
        if is_blank(joined(run)) {
            assert forall|i: int| 0 <= i < run.len() implies is_blank(#[trigger] run[i]) by {
                if i < front.len() {
                    assert(front[i] == run[i]);
                }
            }
        }
    }
}

/// A text comes back blank exactly where it is blank.
pub proof fn lemma_as_cut_blank(text: Seq<char>)
    ensures
        is_blank(as_cut(text)) <==> is_blank(text),
{
    let fed = text + seq!['\n'];
    lemma_joined_blank(lines_of(fed));
    lemma_blank_lines(fed, 0, 0);
    assert(fed.subrange(0, fed.len() as int) =~= fed);
    assert(is_white_space('\n'));
    assert(is_blank(seq!['\n']));
    lemma_blank_add(text, seq!['\n']);
}

/// Up to the first marker there is no marker, and where the search stops
/// before the end, there is one.
pub proof fn lemma_first_marker(lines: Seq<Seq<char>>, from: int)
    requires
        0 <= from <= lines.len(),
    ensures
        from <= first_marker(lines, from) <= lines.len(),
        forall|k: int| from <= k < first_marker(lines, from) ==> !is_batch_marker(#[trigger] lines[k]),
        first_marker(lines, from) < lines.len() ==> is_batch_marker(
            lines[first_marker(lines, from)],
        ),
    decreases lines.len() - from,
{
    if from < lines.len() && !is_batch_marker(lines[from]) {
        lemma_first_marker(lines, from + 1);
    }
}

/// The lines of a statement put together: the first marker, the lines of
/// the first text, and the lines of the rest.
proof fn lemma_rebuilt_lines(pieces: Seq<Seq<char>>, markers: Seq<Seq<char>>)
    requires
        pieces.len() > 0,
        markers.len() > 0,
        is_marker_line(markers[0]),
    ensures
        lines_of(rebuilt(pieces, markers)) == seq![without_carriage_return(markers[0])] + lines_of(
            pieces[0] + seq!['\n'],
        ) + lines_of(rebuilt(pieces.drop_first(), markers.drop_first())),
{
    let tail = rebuilt(pieces.drop_first(), markers.drop_first());
    let first = markers[0] + seq!['\n'];
    let second = pieces[0] + seq!['\n'];
    assert(rebuilt(pieces, markers) =~= first + (second + tail));
    lemma_scan_split(first, second + tail, 0, 0);
    lemma_one_line(markers[0], 0);
    lemma_scan_split(second, tail, 0, 0);
    assert(seq![without_carriage_return(markers[0])] + (lines_of(second) + lines_of(tail))
        =~= seq![without_carriage_return(markers[0])] + lines_of(second) + lines_of(tail));
}

/// Cutting a statement that was put together from texts and markers gives
/// one sub-statement for each text, in order, none merged, split or dropped:
/// each text as it comes back.
pub proof fn lemma_rebuilt_splits(pieces: Seq<Seq<char>>, markers: Seq<Seq<char>>)
    requires
        pieces.len() == markers.len(),
        forall|i: int| 0 <= i < pieces.len() ==> is_segment(#[trigger] pieces[i]),
        forall|i: int| 0 <= i < markers.len() ==> is_marker_line(#[trigger] markers[i]),
    ensures
        sub_statements(rebuilt(pieces, markers)) == all_as_cut(pieces),
    decreases pieces.len(),
{
    let none = Seq::<Seq<char>>::empty();
    assert(joined(none) =~= Seq::<char>::empty());
    assert(segment(none) =~= none);
    if pieces.len() == 0 {
        assert(lines_of(rebuilt(pieces, markers)) =~= none);
        assert(all_as_cut(pieces) =~= none);
    } else {
        let piece = pieces[0];
        let more = pieces.drop_first();
        let more_markers = markers.drop_first();
        assert(is_segment(piece));
        lemma_as_cut_blank(piece);
        assert forall|i: int| 0 <= i < more.len() implies is_segment(#[trigger] more[i]) by {
            assert(more[i] == pieces[i + 1]);
        }
        assert forall|i: int| 0 <= i < more_markers.len() implies is_marker_line(
            #[trigger] more_markers[i],
        ) by {
            assert(more_markers[i] == markers[i + 1]);
        }
        lemma_rebuilt_splits(more, more_markers);
        lemma_rebuilt_lines(pieces, markers);
        let body = lines_of(piece + seq!['\n']);
        let after = lines_of(rebuilt(more, more_markers));
        let front = seq![without_carriage_return(markers[0])] + body;
        let all = front + after;
        let end = front.len() as int;
        assert(all[0] == without_carriage_return(markers[0]));
        assert(first_marker(all, 0) == 0);
        assert forall|k: int| 1 <= k < end implies !is_batch_marker(#[trigger] all[k]) by {
            assert(all[k] == body[k - 1]);
        }
        lemma_segments_skip(all, 1, 1, end);
        assert(all.subrange(1, end) =~= body);
        if more.len() == 0 {
            assert(rebuilt(more, more_markers) =~= Seq::<char>::empty());
            assert(after =~= none);
            assert(all.len() == end);
            assert(all_as_cut(pieces) =~= seq![as_cut(piece)]);
        } else {
            lemma_rebuilt_lines(more, more_markers);
            assert(after[0] == without_carriage_return(more_markers[0]));
            assert(first_marker(after, 0) == 0);
            assert(all[end] == after[0]);
            lemma_segments_shift(front, after, 1, 1);
            assert(all_as_cut(pieces) =~= seq![as_cut(piece)] + all_as_cut(more));
        }
    }
}

/// A text that is the text of a run of plain lines comes back as it is.
pub proof fn lemma_piece_comes_back(text: Seq<char>)
    requires
        is_piece(text),
    ensures
        is_segment(text),
        as_cut(text) == text,
{
    let run = choose|run: Seq<Seq<char>>| is_plain_run(run) && #[trigger] joined(run) == text;
    assert(text.len() > 0);
    lemma_lines_of_joined(run);
    lemma_kept(run);
}

/// No line of a text holds a line feed.
proof fn lemma_lines_are_plain(s: Seq<char>, start: int, pos: int)
    requires
        0 <= start <= pos <= s.len(),
        forall|k: int| start <= k < pos ==> s[k] != '\n',
    ensures
        forall|i: int, k: int|
            0 <= i < lines_scan(s, start, pos).len() && 0 <= k < lines_scan(s, start, pos)[i].len()
                ==> (#[trigger] lines_scan(s, start, pos)[i][k]) != '\n',
    decreases s.len() - pos,
{
    let out = lines_scan(s, start, pos);
    if pos >= s.len() {
        assert forall|i: int, k: int| 0 <= i < out.len() && 0 <= k < out[i].len() implies (
        #[trigger] out[i][k]) != '\n' by {
            assert(out[i] == s.subrange(start, s.len() as int));
            assert(out[i][k] == s[start + k]);
        }
    } else if s[pos] == '\n' {
        let rest = lines_scan(s, pos + 1, pos + 1);
        lemma_lines_are_plain(s, pos + 1, pos + 1);
        assert forall|i: int, k: int| 0 <= i < out.len() && 0 <= k < out[i].len() implies (
        #[trigger] out[i][k]) != '\n' by {
            if i > 0 {
                assert(out[i] == rest[i - 1]);
            } else {
                let piece = s.subrange(start, pos);
                assert(out[0] == without_carriage_return(piece));
                assert(out[0][k] == piece[k]);
                assert(piece[k] == s[start + k]);
            }
        }
    } else {
        lemma_lines_are_plain(s, start, pos + 1);
        assert(out == lines_scan(s, start, pos + 1));
    }
}

/// Every sub-statement is what a run of lines contributes.
proof fn lemma_segments_are_pieces(lines: Seq<Seq<char>>, start: int, pos: int)
    requires
        0 <= start <= pos <= lines.len(),
        forall|k: int| 0 <= k < lines.len() ==> has_no_line_feed(#[trigger] lines[k]),
        forall|k: int| start <= k < pos ==> !is_batch_marker(#[trigger] lines[k]),
    ensures
        forall|i: int|
            0 <= i < segments_scan(lines, start, pos).len() ==> is_raw_piece(
                #[trigger] segments_scan(lines, start, pos)[i],
            ),
    decreases lines.len() - pos,
{
    let out = segments_scan(lines, start, pos);
    if pos >= lines.len() {
        let run = lines.subrange(start, lines.len() as int);
        assert(is_run(run)) by {
            assert forall|k: int| 0 <= k < run.len() implies !is_batch_marker(#[trigger] run[k])
                && has_no_line_feed(run[k]) by {
                assert(run[k] == lines[start + k]);
            }
        }
        assert forall|i: int| 0 <= i < out.len() implies is_raw_piece(#[trigger] out[i]) by {
            assert(out[i] == joined(run));
        }
    } else if is_batch_marker(lines[pos]) {
        let run = lines.subrange(start, pos);
        assert(is_run(run)) by {
            assert forall|k: int| 0 <= k < run.len() implies !is_batch_marker(#[trigger] run[k])
                && has_no_line_feed(run[k]) by {
                assert(run[k] == lines[start + k]);
            }
        }
        let rest = segments_scan(lines, pos + 1, pos + 1);
        lemma_segments_are_pieces(lines, pos + 1, pos + 1);
        assert forall|i: int| 0 <= i < out.len() implies is_raw_piece(#[trigger] out[i]) by {
            if i >= segment(run).len() {
                assert(out[i] == rest[i - segment(run).len()]);
            } else {
                assert(out[i] == joined(run));
            }
        }
    } else {
        lemma_segments_are_pieces(lines, start, pos + 1);
        assert(out == segments_scan(lines, start, pos + 1));
    }
}

/// Every sub-statement of a statement is what a run of its lines
/// contributes.
pub proof fn lemma_sub_statements_are_pieces(text: Seq<char>)
    ensures
        forall|i: int|
            0 <= i < sub_statements(text).len() ==> is_raw_piece(#[trigger] sub_statements(text)[i]),
{
    let lines = lines_of(text);
    let first = first_marker(lines, 0);
    lemma_lines_are_plain(text, 0, 0);
    assert forall|k: int| 0 <= k < lines.len() implies has_no_line_feed(#[trigger] lines[k]) by {
        assert forall|c: int| 0 <= c < lines[k].len() implies lines[k][c] != '\n' by {
            assert(lines_scan(text, 0, 0)[k][c] != '\n');
        }
    }
    lemma_first_marker(lines, 0);
    if first < lines.len() {
        lemma_segments_are_pieces(lines, first + 1, first + 1);
    } else {
        assert(is_run(lines));
        assert forall|i: int| 0 <= i < sub_statements(text).len() implies is_raw_piece(
            #[trigger] sub_statements(text)[i],
        ) by {
            assert(sub_statements(text)[i] == joined(lines));
        }
    }
}

/// Splitting goes round: the sub-statements of a statement, put together
/// again with a marker before each, split into the same sub-statements,
/// where none of them has a carriage return before a line feed or at its
/// end.
pub proof fn lemma_split_round_trip(text: Seq<char>, markers: Seq<Seq<char>>)
    requires
        forall|i: int|
            0 <= i < sub_statements(text).len() ==> keeps_no_carriage_return(
                #[trigger] sub_statements(text)[i],
            ),
        markers.len() == sub_statements(text).len(),
        forall|i: int| 0 <= i < markers.len() ==> is_marker_line(#[trigger] markers[i]),
    ensures
        sub_statements(rebuilt(sub_statements(text), markers)) == sub_statements(text),
{
    let pieces = sub_statements(text);
    lemma_sub_statements_are_pieces(text);
    assert forall|i: int| 0 <= i < pieces.len() implies is_segment(#[trigger] pieces[i])
        && as_cut(pieces[i]) == pieces[i] by {
        lemma_raw_piece(pieces[i]);
        lemma_piece_comes_back(pieces[i]);
    }
    lemma_rebuilt_splits(pieces, markers);
    assert(all_as_cut(pieces) =~= pieces);
}

/// Texts that are each the text of a run of plain lines come back as they
/// are: cutting the statement put together from them gives those texts.
pub proof fn lemma_plain_pieces_split(pieces: Seq<Seq<char>>, markers: Seq<Seq<char>>)
    requires
        pieces.len() == markers.len(),
        forall|i: int| 0 <= i < pieces.len() ==> is_piece(#[trigger] pieces[i]),
        forall|i: int| 0 <= i < markers.len() ==> is_marker_line(#[trigger] markers[i]),
    ensures
        sub_statements(rebuilt(pieces, markers)) == pieces,
{
    assert forall|i: int| 0 <= i < pieces.len() implies is_segment(#[trigger] pieces[i])
        && as_cut(pieces[i]) == pieces[i] by {
        lemma_piece_comes_back(pieces[i]);
    }
    lemma_rebuilt_splits(pieces, markers);
    assert(all_as_cut(pieces) =~= pieces);
}

/// The first content line of each sub-statement of a statement gives that
/// sub-statement, as it is shown.
pub proof fn lemma_sub_statement_at_its_start(text: Seq<char>, k: int)
    requires
        0 <= k < sub_statements(text).len(),
    ensures
        statement_at_offset(
            text,
            total_lines(with_pretty(sub_statements(text)).take(k)) as int,
        ) == with_pretty(sub_statements(text))[k].shown(),
{
    lemma_locate_start(with_pretty(sub_statements(text)), k);
}

/// In a statement put together from texts and markers, the first content
/// line of each text gives that text, as it comes back and as it is shown.
pub proof fn lemma_piece_at_its_start(pieces: Seq<Seq<char>>, markers: Seq<Seq<char>>, k: int)
    requires
        pieces.len() == markers.len(),
        forall|i: int| 0 <= i < pieces.len() ==> is_segment(#[trigger] pieces[i]),
        forall|i: int| 0 <= i < markers.len() ==> is_marker_line(#[trigger] markers[i]),
        0 <= k < pieces.len(),
    ensures
        statement_at_offset(
            rebuilt(pieces, markers),
            total_lines(with_pretty(all_as_cut(pieces)).take(k)) as int,
        ) == with_pretty(all_as_cut(pieces))[k].shown(),
{
    lemma_rebuilt_splits(pieces, markers);
    lemma_sub_statement_at_its_start(rebuilt(pieces, markers), k);
}

/// Whether a text ends in a character that is neither a line feed nor a
/// carriage return.
pub open spec fn ends_plainly(text: Seq<char>) -> bool {
    text.len() > 0 && text.last() != '\n' && text.last() != '\r'
}

/// A line feed behind a text that ends plainly adds no line.
proof fn lemma_last_feed(text: Seq<char>, start: int, pos: int)
    requires
        ends_plainly(text),
        0 <= start <= pos <= text.len(),
        start < text.len(),
        forall|k: int| start <= k < pos ==> text[k] != '\n',
    ensures
        lines_scan(text + seq!['\n'], start, pos) == lines_scan(text, start, pos),
    decreases text.len() - pos,
{
    let fed = text + seq!['\n'];
    if pos == text.len() {
        assert(fed[pos] == '\n');
        let piece = fed.subrange(start, pos);
        assert(piece =~= text.subrange(start, text.len() as int));
        assert(piece.last() == text.last());
        assert(lines_scan(fed, pos + 1, pos + 1) =~= Seq::<Seq<char>>::empty());
        assert(seq![piece] + Seq::<Seq<char>>::empty() =~= seq![piece]);
    } else {
        assert(fed[pos] == text[pos]);
        if text[pos] == '\n' {
            assert(fed.subrange(start, pos) =~= text.subrange(start, pos));
            lemma_last_feed(text, pos + 1, pos + 1);
        } else {
            lemma_last_feed(text, start, pos + 1);
        }
    }
}

/// A statement put together from texts ends in the last text and a line
/// feed.
proof fn lemma_rebuilt_end(pieces: Seq<Seq<char>>, markers: Seq<Seq<char>>)
    requires
        pieces.len() == markers.len(),
        pieces.len() > 0,
        pieces.last().len() > 0,
    ensures
        rebuilt(pieces, markers).len() >= 2,
        rebuilt(pieces, markers).last() == '\n',
        rebuilt(pieces, markers)[rebuilt(pieces, markers).len() - 2] == pieces.last().last(),
    decreases pieces.len(),
{
    let more = pieces.drop_first();
    let more_markers = markers.drop_first();
    let head = markers[0] + seq!['\n'] + pieces[0] + seq!['\n'];
    let tail = rebuilt(more, more_markers);
    assert(rebuilt(pieces, markers) =~= head + tail);
    if more.len() == 0 {
        assert(tail =~= Seq::<char>::empty());
        assert(pieces.last() == pieces[0]);
    } else {
        assert(more.last() == pieces.last());
        lemma_rebuilt_end(more, more_markers);
    }
}

/// The same holds of a statement put together without a line feed behind
/// its last text, where that text ends plainly: cutting it gives one
/// sub-statement for each text, in order, each as it comes back.
pub proof fn lemma_bare_splits(pieces: Seq<Seq<char>>, markers: Seq<Seq<char>>)
    requires
        pieces.len() == markers.len(),
        pieces.len() > 0,
        forall|i: int| 0 <= i < pieces.len() ==> is_segment(#[trigger] pieces[i]),
        forall|i: int| 0 <= i < markers.len() ==> is_marker_line(#[trigger] markers[i]),
        ends_plainly(pieces.last()),
    ensures
        sub_statements(rebuilt(pieces, markers).drop_last()) == all_as_cut(pieces),
{
    let whole = rebuilt(pieces, markers);
    let bare = whole.drop_last();
    lemma_rebuilt_end(pieces, markers);
    lemma_rebuilt_splits(pieces, markers);
    assert(bare.last() == whole[whole.len() - 2]);
    assert(bare + seq!['\n'] =~= whole);
    lemma_last_feed(bare, 0, 0);
}

/// A statement without a marker line is one sub-statement, its lines put
/// together; or none, where it is blank.
pub proof fn lemma_unmarked_is_one_piece(text: Seq<char>)
    requires
        forall|k: int| 0 <= k < lines_of(text).len() ==> !is_batch_marker(#[trigger] lines_of(text)[k]),
    ensures
        sub_statements(text) == segment(lines_of(text)),
{
    lemma_first_marker(lines_of(text), 0);
}

/// What stands before the first marker of a statement is no sub-statement:
/// the sub-statements are those of the lines behind that marker.
pub proof fn lemma_head_is_dropped(text: Seq<char>)
    requires
        first_marker(lines_of(text), 0) < lines_of(text).len(),
    ensures
        sub_statements(text) == segments_scan(
            lines_of(text).skip(first_marker(lines_of(text), 0) + 1),
            0,
            0,
        ),
{
    let lines = lines_of(text);
    let first = first_marker(lines, 0);
    lemma_first_marker(lines, 0);
    let front = lines.take(first + 1);
    let rest = lines.skip(first + 1);
    assert(lines =~= front + rest);
    lemma_segments_shift(front, rest, 0, 0);
}

} // verus!
