//! Statements: their size, their sub-statements, and the lines they take up.

use crate::text::{
    chars_of, count_lines, is_blank, is_blank_chars, lines_of, split_lines, starts_with_chars,
    string_of, trim_chars, trimmed,
};
use vstd::prelude::*;

verus! {

/// How long a statement is, in four classes.
#[derive(Debug, Clone, Copy, PartialEq, Eq, Structural)]
pub enum SqlSizeClass {
    Small,
    Medium,
    Big,
    Abomination,
}

/// The class of a statement of `len` characters.
pub fn classify_sql_size(len: usize) -> (class: SqlSizeClass)
    ensures
        class == if len < 1250 {
            SqlSizeClass::Small
        } else if len < 2500 {
            SqlSizeClass::Medium
        } else if len < 5000 {
            SqlSizeClass::Big
        } else {
            SqlSizeClass::Abomination
        },
{
    if len < 1250 {
        SqlSizeClass::Small
    } else if len < 2500 {
        SqlSizeClass::Medium
    } else if len < 5000 {
        SqlSizeClass::Big
    } else {
        SqlSizeClass::Abomination
    }
}

/// What `sqlformat::format` makes of `sql` with no parameters, an indent of
/// `indent` spaces, keywords in upper or lower case as `uppercase` says,
/// `lines_between_queries` line feeds after each query, and no word exempt
/// from the change of case.
pub uninterp spec fn pretty_sql(
    sql: Seq<char>,
    indent: u8,
    uppercase: bool,
    lines_between_queries: u8,
) -> Seq<char>;

/// Calls `sqlformat::format`. The contract only gives the result its name: the
/// formatter reads nothing but its arguments, so the same text and options
/// give the same result. Trusted, not proved.
#[verifier::external_body]
pub(crate) fn format_sql(sql: &str, indent: u8, uppercase: bool, lines_between_queries: u8) -> (r:
    String)
    ensures
        r@ == pretty_sql(sql@, indent, uppercase, lines_between_queries),
{
    let options = sqlformat::FormatOptions {
        indent: sqlformat::Indent::Spaces(indent),
        uppercase: Some(uppercase),
        lines_between_queries,
        ignore_case_convert: Some(vec![]),
    };
    sqlformat::format(sql, &sqlformat::QueryParams::None, &options)
}

/// The pretty-printed form of `sql` as this viewer shows it: two spaces of
/// indent, keywords in lower case, one line feed between queries.
pub open spec fn pretty(sql: Seq<char>) -> Seq<char> {
    pretty_sql(sql, 2, false, 1)
}

/// Whether a line separates two commands of a batch.
pub open spec fn is_batch_marker(line: Seq<char>) -> bool {
    "[-- Batch Command"@.is_prefix_of(line)
}

/// The lines of a run put together again, a line feed between two of them.
/// Empty lines at the head of the run leave no trace.
pub open spec fn joined(lines: Seq<Seq<char>>) -> Seq<char>
    decreases lines.len(),
{
    if lines.len() == 0 {
        Seq::empty()
    } else {
        let head = joined(lines.drop_last());
        if head.len() == 0 {
            lines.last()
        } else {
            head + seq!['\n'] + lines.last()
        }
    }
}

/// What a run of lines between two markers contributes: its text, unless
/// that is blank.
pub open spec fn segment(run: Seq<Seq<char>>) -> Seq<Seq<char>> {
    if is_blank(joined(run)) {
        Seq::empty()
    } else {
        seq![joined(run)]
    }
}

/// The sub-statements of `lines` from line `start` on, given that no marker
/// stands between `start` and `pos`.
pub open spec fn segments_scan(lines: Seq<Seq<char>>, start: int, pos: int) -> Seq<Seq<char>>
    decreases lines.len() - pos,
{
    if pos >= lines.len() {
        segment(lines.subrange(start, lines.len() as int))
    } else if is_batch_marker(lines[pos]) {
        segment(lines.subrange(start, pos)) + segments_scan(lines, pos + 1, pos + 1)
    } else {
        segments_scan(lines, start, pos + 1)
    }
}

/// Position of the first marker line at or after line `from`; the number of
/// lines if there is none.
pub open spec fn first_marker(lines: Seq<Seq<char>>, from: int) -> int
    decreases lines.len() - from,
{
    if 0 <= from < lines.len() && !is_batch_marker(lines[from]) {
        first_marker(lines, from + 1)
    } else {
        from
    }
}

/// The sub-statements of a statement. Where it has marker lines, they are
/// the texts behind each marker, up to the next one, in order, blank ones
/// left out; what stands before the first marker is no sub-statement. A
/// statement without a marker is one sub-statement, or none if it is blank.
pub open spec fn sub_statements(text: Seq<char>) -> Seq<Seq<char>> {
    let lines = lines_of(text);
    let first = first_marker(lines, 0);
    if first < lines.len() {
        segments_scan(lines, first + 1, first + 1)
    } else {
        segment(lines)
    }
}

/// The texts of a sequence of strings.
pub open spec fn texts(v: Seq<String>) -> Seq<Seq<char>> {
    Seq::new(v.len(), |i: int| v[i]@)
}

/// Appends the characters of `src` to `dst`.
fn append_chars(dst: &mut Vec<char>, src: &Vec<char>)
    ensures
        final(dst)@ == old(dst)@ + src@,
{
    let mut i: usize = 0;
    while i < src.len()
        invariant
            i <= src.len(),
            dst@ == old(dst)@ + src@.take(i as int),
        decreases src.len() - i,
    {
        dst.push(src[i]);
        i += 1;
    }
    assert(src@.take(src@.len() as int) =~= src@);
}

/// Cuts a statement into its sub-statements.
pub fn split_batches(statement: &str) -> (r: Vec<String>)
    ensures
        texts(r@) == sub_statements(statement@),
{
    let chars = chars_of(statement);
    let lines = split_lines(&chars);
    let marker = chars_of("[-- Batch Command");
    let ghost all = lines_of(statement@);
    let mut r: Vec<String> = Vec::new();
    let mut current: Vec<char> = Vec::new();
    let mut seen = false;
    let ghost mut start: int = 0;
    let mut pos: usize = 0;
    assert(all.subrange(0, 0) =~= Seq::<Seq<char>>::empty());
    while pos < lines.len()
        invariant
            0 <= start <= pos <= lines.len(),
            lines@.len() == all.len(),
            all == lines_of(statement@),
            forall|i: int| 0 <= i < lines@.len() ==> (#[trigger] lines@[i])@ == all[i],
            marker@ == "[-- Batch Command"@,
            current@ == joined(all.subrange(start, pos as int)),
            !seen ==> start == 0 && r@.len() == 0 && first_marker(all, 0) == first_marker(
                all,
                pos as int,
            ),
            seen ==> sub_statements(statement@) == texts(r@) + segments_scan(
                all,
                start,
                pos as int,
            ),
        decreases lines.len() - pos,
    {
        let line = &lines[pos];
        if starts_with_chars(line, &marker) {
            if seen && !is_blank_chars(&current) {
                let piece = string_of(&current);
                proof {
                    assert(texts(r@.push(piece)) =~= texts(r@) + seq![piece@]);
                }
                r.push(piece);
            }
            proof {
                if !seen {
                    assert(texts(r@) + segments_scan(all, pos + 1, pos + 1) =~= segments_scan(
                        all,
                        pos + 1,
                        pos + 1,
                    ));
                }
                start = pos + 1;
                assert(all.subrange(start, start) =~= Seq::<Seq<char>>::empty());
            }
            seen = true;
            current = Vec::new();
        } else {
            proof {
                let run = all.subrange(start, pos as int);
                let next = all.subrange(start, pos + 1);
                assert(next.drop_last() =~= run);
                assert(next.last() == line@);
            }
            if current.len() != 0 {
                current.push('\n');
            }
            append_chars(&mut current, line);
        }
        pos += 1;
    }
    proof {
        if !seen {
            assert(all.subrange(0, all.len() as int) =~= all);
            assert(texts(r@) =~= Seq::<Seq<char>>::empty());
        }
    }
    if !is_blank_chars(&current) {
        let piece = string_of(&current);
        proof {
            assert(texts(r@.push(piece)) =~= texts(r@) + seq![piece@]);
        }
        r.push(piece);
    }
    r
}

/// A sub-statement with its pretty-printed form.
#[derive(Debug, PartialEq, Eq)]
pub struct SubStatement {
    pub raw: String,
    pub formatted: String,
}

/// A sub-statement and its pretty-printed form, as plain text.
pub ghost struct SubText {
    pub raw: Seq<char>,
    pub formatted: Seq<char>,
}

impl View for SubStatement {
    type V = SubText;

    open spec fn view(&self) -> SubText {
        SubText { raw: self.raw@, formatted: self.formatted@ }
    }
}

/// The views of a sequence of sub-statements.
pub open spec fn sub_texts(v: Seq<SubStatement>) -> Seq<SubText> {
    Seq::new(v.len(), |i: int| v[i]@)
}

impl SubText {
    /// How many content lines the sub-statement is shown on: those of its
    /// pretty-printed form, or, where that is blank, its own, and one at
    /// least.
    pub open spec fn content_lines(self) -> nat {
        if is_blank(self.formatted) {
            if lines_of(self.raw).len() == 0 {
                1
            } else {
                lines_of(self.raw).len()
            }
        } else {
            lines_of(self.formatted).len()
        }
    }

    /// The lines it takes up in all: a header line, its content, a separator
    /// line.
    pub open spec fn rendered_lines(self) -> nat {
        1 + self.content_lines() + 1
    }

    /// The text that stands for it: the pretty-printed form, or the
    /// sub-statement itself where that is blank.
    pub open spec fn shown(self) -> Seq<char> {
        if is_blank(self.formatted) {
            self.raw
        } else {
            self.formatted
        }
    }
}

impl SubStatement {
    /// How many content lines the sub-statement is shown on.
    pub fn content_line_count(&self) -> (n: usize)
        ensures
            n == self@.content_lines(),
    {
        let formatted = chars_of(self.formatted.as_str());
        if is_blank_chars(&formatted) {
            let raw = chars_of(self.raw.as_str());
            let n = count_lines(&raw);
            if n == 0 {
                1
            } else {
                n
            }
        } else {
            count_lines(&formatted)
        }
    }

    /// The text that stands for the sub-statement.
    pub fn shown_text(&self) -> (r: String)
        ensures
            r@ == self@.shown(),
    {
        let formatted = chars_of(self.formatted.as_str());
        if is_blank_chars(&formatted) {
            self.raw.clone()
        } else {
            self.formatted.clone()
        }
    }
}

/// The sub-statements `raws`, each with the pretty-printed form of its
/// trimmed text.
pub open spec fn with_pretty(raws: Seq<Seq<char>>) -> Seq<SubText> {
    Seq::new(raws.len(), |i: int| SubText { raw: raws[i], formatted: pretty(trimmed(raws[i])) })
}

/// Cuts a statement into its sub-statements and pretty-prints each.
pub fn format_batches(statement: &str) -> (r: Vec<SubStatement>)
    ensures
        sub_texts(r@) == with_pretty(sub_statements(statement@)),
{
    let mut raws = split_batches(statement);
    let ghost all = texts(raws@);
    let mut r: Vec<SubStatement> = Vec::new();
    let mut i: usize = 0;
    while i < raws.len()
        invariant
            i <= raws.len(),
            texts(raws@) == all,
            r@.len() == i,
            forall|k: int| 0 <= k < i ==> (#[trigger] r@[k])@ == with_pretty(all)[k],
        decreases raws.len() - i,
    {
        let raw = raws[i].clone();
        assert(raw@ == all[i as int]);
        let chars = chars_of(raw.as_str());
        let core = string_of(&trim_chars(&chars));
        let formatted = format_sql(core.as_str(), 2, false, 1);
        r.push(SubStatement { raw, formatted });
        i += 1;
    }
    assert(sub_texts(r@) =~= with_pretty(all));
    r
}

/// Which sub-statement holds line `offset`, if the sub-statements from `i` on
/// start at line `start`.
pub open spec fn locate(subs: Seq<SubText>, i: int, start: int, offset: int) -> Option<int>
    decreases subs.len() - i,
{
    if i < 0 || i >= subs.len() {
        None
    } else {
        let end = start + subs[i].rendered_lines();
        if start <= offset < end {
            Some(i)
        } else {
            locate(subs, i + 1, end, offset)
        }
    }
}

/// The text of the sub-statement that holds line `offset`, counted over the
/// sub-statements one after the other; the whole statement if none does.
pub open spec fn pick_statement(text: Seq<char>, subs: Seq<SubText>, offset: int) -> Seq<char> {
    match locate(subs, 0, 0, offset) {
        Some(i) => subs[i].shown(),
        None => text,
    }
}

/// The text of the sub-statement of `text` that holds content line `offset`.
pub open spec fn statement_at_offset(text: Seq<char>, offset: int) -> Seq<char> {
    pick_statement(text, with_pretty(sub_statements(text)), offset)
}

/// All the lines that the sub-statements take up.
pub open spec fn total_lines(subs: Seq<SubText>) -> nat
    decreases subs.len(),
{
    if subs.len() == 0 {
        0
    } else {
        total_lines(subs.drop_last()) + subs.last().rendered_lines()
    }
}

/// Picks, among sub-statements already pretty-printed, the one that holds
/// content line `cursor_pos`, and gives its text; the whole statement if the
/// line lies behind them all.
pub fn select_statement(statement: &str, subs: &Vec<SubStatement>, cursor_pos: usize) -> (r:
    String)
    ensures
        r@ == pick_statement(statement@, sub_texts(subs@), cursor_pos as int),
        cursor_pos >= total_lines(sub_texts(subs@)) ==> r@ == statement@,
{
    let ghost all = sub_texts(subs@);
    proof {
        assert(all.take(0) =~= Seq::<SubText>::empty());
        if cursor_pos >= total_lines(all) {
            lemma_locate_beyond(all, 0, cursor_pos as int);
        }
    }
    let mut start: usize = 0;
    let mut i: usize = 0;
    while i < subs.len()
        invariant
            i <= subs.len(),
            all == sub_texts(subs@),
            start <= cursor_pos,
            cursor_pos >= total_lines(all) ==> locate(all, 0, 0, cursor_pos as int) is None,
            locate(all, 0, 0, cursor_pos as int) == locate(all, i as int, start as int, cursor_pos as int),
        decreases subs.len() - i,
    {
        let n = subs[i].content_line_count();
        assert(all[i as int] == subs@[i as int]@);
        let gap: usize = cursor_pos - start;
        if gap < 2 || gap - 2 < n {
            return subs[i].shown_text();
        }
        start = start + n + 2;
        i += 1;
    }
    statement.to_owned()
}

/// The text of the sub-statement under content line `cursor_pos` of a
/// statement, pretty-printed where that gives anything.
pub fn extract_batch_statement_at_cursor(statement: &str, cursor_pos: usize) -> (r: String)
    ensures
        r@ == statement_at_offset(statement@, cursor_pos as int),
{
    let subs = format_batches(statement);
    select_statement(statement, &subs, cursor_pos)
}

/// All the lines that sub-statements take up, or the largest number there is
/// if they take up more.
pub fn count_rendered_lines(subs: &Vec<SubStatement>) -> (n: usize)
    ensures
        n == if total_lines(sub_texts(subs@)) <= usize::MAX {
            total_lines(sub_texts(subs@))
        } else {
            usize::MAX as nat
        },
{
    let ghost all = sub_texts(subs@);
    let mut n: usize = 0;
    let mut i: usize = 0;
    while i < subs.len()
        invariant
            i <= subs.len(),
            all == sub_texts(subs@),
            n == total_lines(all.take(i as int)),
        decreases subs.len() - i,
    {
        let c = subs[i].content_line_count();
        proof {
            assert(all.take(i + 1).drop_last() =~= all.take(i as int));
            assert(all.take(i + 1).last() == subs@[i as int]@);
        }
        if c > usize::MAX - 2 || n > usize::MAX - 2 - c {
            proof {
                lemma_total_lines_grows(all, i + 1);
            }
            return usize::MAX;
        }
        n = n + c + 2;
        i += 1;
    }
    assert(all.take(subs@.len() as int) =~= all);
    n
}

/// The lines of a head of the sub-statements are at most those of them all.
pub proof fn lemma_total_lines_grows(subs: Seq<SubText>, k: int)
    requires
        0 <= k <= subs.len(),
    ensures
        total_lines(subs.take(k)) <= total_lines(subs),
    decreases subs.len() - k,
{
    if k < subs.len() {
        assert(subs.take(k + 1).drop_last() =~= subs.take(k));
        lemma_total_lines_grows(subs, k + 1);
    } else {
        assert(subs.take(k) =~= subs);
    }
}

/// How many lines a statement takes up once it is cut and pretty-printed.
pub fn count_statement_lines(statement: &str) -> (n: usize)
    ensures
        n == if total_lines(with_pretty(sub_statements(statement@))) <= usize::MAX {
            total_lines(with_pretty(sub_statements(statement@)))
        } else {
            usize::MAX as nat
        },
{
    let subs = format_batches(statement);
    count_rendered_lines(&subs)
}

/// What stands on one content line of a statement: the header of a
/// sub-statement, one line of its text, or the separator behind it. Each
/// holds the number of the sub-statement, counted from 0; a line of text also
/// its own number within the text.
#[derive(Debug, Clone, Copy, PartialEq, Eq, Structural)]
pub enum ContentLine {
    Header(usize),
    Text(usize, usize),
    Separator(usize),
}

/// A content line over the integers.
pub ghost enum LineView {
    Header(int),
    Text(int, int),
    Separator(int),
}

impl View for ContentLine {
    type V = LineView;

    open spec fn view(&self) -> LineView {
        match self {
            ContentLine::Header(s) => LineView::Header(*s as int),
            ContentLine::Text(s, l) => LineView::Text(*s as int, *l as int),
            ContentLine::Separator(s) => LineView::Separator(*s as int),
        }
    }
}

impl LineView {
    /// The sub-statement that the line belongs to.
    pub open spec fn statement(self) -> int {
        match self {
            LineView::Header(s) => s,
            LineView::Text(s, _) => s,
            LineView::Separator(s) => s,
        }
    }
}

/// What a sequence of content lines holds.
pub open spec fn line_views(v: Seq<ContentLine>) -> Seq<LineView> {
    Seq::new(v.len(), |i: int| v[i]@)
}

/// The content lines of sub-statement `index`: its header, the lines of
/// its text, its separator.
pub open spec fn block(sub: SubText, index: int) -> Seq<LineView> {
    seq![LineView::Header(index)] + Seq::new(
        sub.content_lines(),
        |l: int| LineView::Text(index, l),
    ) + seq![LineView::Separator(index)]
}

/// The content lines of the sub-statements, one block after the other.
pub open spec fn layout(subs: Seq<SubText>) -> Seq<LineView>
    decreases subs.len(),
{
    if subs.len() == 0 {
        Seq::empty()
    } else {
        layout(subs.drop_last()) + block(subs.last(), subs.len() - 1)
    }
}

/// The layout has a line for each line that the sub-statements take up.
pub proof fn lemma_layout_len(subs: Seq<SubText>)
    ensures
        layout(subs).len() == total_lines(subs),
    decreases subs.len(),
{
    if subs.len() > 0 {
        lemma_layout_len(subs.drop_last());
    }
}

/// Lays out the content lines of sub-statements: what stands on each line
/// that they take up.
pub fn content_layout(subs: &Vec<SubStatement>) -> (lines: Vec<ContentLine>)
    ensures
        line_views(lines@) == layout(sub_texts(subs@)),
        lines@.len() == total_lines(sub_texts(subs@)),
{
    let ghost all = sub_texts(subs@);
    let mut lines: Vec<ContentLine> = Vec::new();
    let mut i: usize = 0;
    assert(all.take(0) =~= Seq::<SubText>::empty());
    assert(line_views(lines@) =~= Seq::<LineView>::empty());
    while i < subs.len()
        invariant
            i <= subs.len(),
            all == sub_texts(subs@),
            line_views(lines@) == layout(all.take(i as int)),
        decreases subs.len() - i,
    {
        let n = subs[i].content_line_count();
        let ghost base = line_views(lines@);
        let ghost sub = all[i as int];
        proof {
            assert(all.take(i + 1).drop_last() =~= all.take(i as int));
            assert(all.take(i + 1).last() == sub);
            assert(sub == subs@[i as int]@);
        }
        lines.push(ContentLine::Header(i));
        assert(line_views(lines@) =~= base + seq![LineView::Header(i as int)]);
        let mut l: usize = 0;
        while l < n
            invariant
                l <= n,
                n == sub.content_lines(),
                line_views(lines@) == base + seq![LineView::Header(i as int)] + Seq::new(
                    l as nat,
                    |k: int| LineView::Text(i as int, k),
                ),
            decreases n - l,
        {
            let ghost before = line_views(lines@);
            lines.push(ContentLine::Text(i, l));
            assert(line_views(lines@) =~= before.push(LineView::Text(i as int, l as int)));
            assert(line_views(lines@) =~= base + seq![LineView::Header(i as int)] + Seq::new(
                (l + 1) as nat,
                |k: int| LineView::Text(i as int, k),
            ));
            l += 1;
        }
        let ghost before = line_views(lines@);
        lines.push(ContentLine::Separator(i));
        assert(line_views(lines@) =~= before.push(LineView::Separator(i as int)));
        assert(line_views(lines@) =~= base + block(sub, i as int));
        i += 1;
    }
    assert(all.take(subs@.len() as int) =~= all);
    proof {
        lemma_layout_len(all);
        assert(line_views(lines@).len() == lines@.len());
    }
    lines
}

/// The sub-statement whose lines hold line `offset`.
proof fn lemma_block_of(subs: Seq<SubText>, offset: int) -> (j: int)
    requires
        0 <= offset < total_lines(subs),
    ensures
        0 <= j < subs.len(),
        total_lines(subs.take(j)) <= offset < total_lines(subs.take(j + 1)),
    decreases subs.len(),
{
    let n = subs.len() - 1;
    let front = subs.drop_last();
    assert(subs.take(n) =~= front);
    assert(subs.take(n + 1) =~= subs);
    if offset >= total_lines(front) {
        n
    } else {
        let j = lemma_block_of(front, offset);
        assert(front.take(j) =~= subs.take(j));
        assert(front.take(j + 1) =~= subs.take(j + 1));
        j
    }
}

/// A line of sub-statement `j` is found there from any earlier sub-statement
/// on.
proof fn lemma_locate_from(subs: Seq<SubText>, i: int, j: int, offset: int)
    requires
        0 <= i <= j < subs.len(),
        total_lines(subs.take(j)) <= offset < total_lines(subs.take(j + 1)),
    ensures
        locate(subs, i, total_lines(subs.take(i)) as int, offset) == Some(j),
    decreases j - i,
{
    assert(subs.take(i + 1).drop_last() =~= subs.take(i));
    assert(subs.take(i + 1).last() == subs[i]);
    if i < j {
        lemma_total_lines_grows(subs.take(j), i + 1);
        assert(subs.take(j).take(i + 1) =~= subs.take(i + 1));
        lemma_locate_from(subs, i + 1, j, offset);
    }
}

/// The layout puts the lines of sub-statement `j` where its lines are
/// counted.
proof fn lemma_layout_block(subs: Seq<SubText>, j: int, offset: int)
    requires
        0 <= j < subs.len(),
        total_lines(subs.take(j)) <= offset < total_lines(subs.take(j + 1)),
    ensures
        offset < layout(subs).len(),
        layout(subs)[offset].statement() == j,
    decreases subs.len(),
{
    let n = subs.len() - 1;
    let front = subs.drop_last();
    assert(subs.take(n) =~= front);
    assert(subs.take(n + 1) =~= subs);
    lemma_layout_len(front);
    lemma_layout_len(subs);
    if j == n {
        let b = block(subs.last(), n);
        assert(layout(subs)[offset] == b[offset - layout(front).len()]);
    } else {
        assert(front.take(j) =~= subs.take(j));
        assert(front.take(j + 1) =~= subs.take(j + 1));
        lemma_total_lines_grows(front, j + 1);
        lemma_layout_block(front, j, offset);
        assert(layout(subs)[offset] == layout(front)[offset]);
    }
}

/// The first line of a sub-statement picks that sub-statement.
pub proof fn lemma_locate_start(subs: Seq<SubText>, j: int)
    requires
        0 <= j < subs.len(),
    ensures
        locate(subs, 0, 0, total_lines(subs.take(j)) as int) == Some(j),
{
    assert(subs.take(j + 1).drop_last() =~= subs.take(j));
    assert(subs.take(j + 1).last() == subs[j]);
    assert(subs.take(0) =~= Seq::<SubText>::empty());
    lemma_locate_from(subs, 0, j, total_lines(subs.take(j)) as int);
}

/// The sub-statement that is picked for a content line is the one that the
/// layout puts on that line.
pub proof fn lemma_layout_locates(subs: Seq<SubText>, offset: int)
    requires
        0 <= offset < total_lines(subs),
    ensures
        offset < layout(subs).len(),
        locate(subs, 0, 0, offset) == Some(layout(subs)[offset].statement()),
{
    let j = lemma_block_of(subs, offset);
    lemma_locate_from(subs, 0, j, offset);
    lemma_layout_block(subs, j, offset);
    assert(subs.take(0) =~= Seq::<SubText>::empty());
}

/// Behind the last line that the sub-statements take up no sub-statement is
/// picked.
pub proof fn lemma_locate_beyond(subs: Seq<SubText>, i: int, offset: int)
    requires
        0 <= i <= subs.len(),
        offset >= total_lines(subs),
    ensures
        locate(subs, i, total_lines(subs.take(i)) as int, offset) is None,
    decreases subs.len() - i,
{
    if i < subs.len() {
        assert(subs.take(i + 1).drop_last() =~= subs.take(i));
        assert(subs.take(i + 1).last() == subs[i]);
        lemma_total_lines_grows(subs, i + 1);
        lemma_locate_beyond(subs, i + 1, offset);
    }
}

} // verus!
