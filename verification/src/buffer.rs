//! The buffer of received records: bounded, oldest first.

use crate::group::records_of;
use crate::record::{LogRecord, SqlLogMessage};
use crate::text::push_char;
use vstd::prelude::*;

verus! {

/// How many records the buffer keeps.
pub const CAPACITY: usize = 1000;

/// The decimal digit for `d`.
pub open spec fn digit(d: nat) -> char {
    if d == 0 {
        '0'
    } else if d == 1 {
        '1'
    } else if d == 2 {
        '2'
    } else if d == 3 {
        '3'
    } else if d == 4 {
        '4'
    } else if d == 5 {
        '5'
    } else if d == 6 {
        '6'
    } else if d == 7 {
        '7'
    } else if d == 8 {
        '8'
    } else {
        '9'
    }
}

/// `n` written in decimal digits.
pub open spec fn decimal(n: nat) -> Seq<char>
    decreases n,
{
    if n < 10 {
        seq![digit(n)]
    } else {
        decimal(n / 10).push(digit(n % 10))
    }
}

/// The decimal digit for `d`.
fn digit_char(d: usize) -> (c: char)
    requires
        d < 10,
    ensures
        c == digit(d as nat),
{
    if d == 0 {
        '0'
    } else if d == 1 {
        '1'
    } else if d == 2 {
        '2'
    } else if d == 3 {
        '3'
    } else if d == 4 {
        '4'
    } else if d == 5 {
        '5'
    } else if d == 6 {
        '6'
    } else if d == 7 {
        '7'
    } else if d == 8 {
        '8'
    } else {
        '9'
    }
}

/// Appends `n` in decimal digits to `s`.
fn push_decimal(s: &mut String, n: usize)
    ensures
        final(s)@ == old(s)@ + decimal(n as nat),
    decreases n,
{
    if n < 10 {
        push_char(s, digit_char(n));
        assert(s@ =~= old(s)@ + decimal(n as nat));
    } else {
        push_decimal(s, n / 10);
        push_char(s, digit_char(n % 10));
        assert(s@ =~= old(s)@ + decimal(n as nat));
    }
}

/// The uid that a record gets where it comes without one: its timestamp, a
/// hyphen, and the number of records that the buffer held when it came.
pub open spec fn made_uid(timestamp: Seq<char>, position: nat) -> Seq<char> {
    timestamp + seq!['-'] + decimal(position)
}

/// The record as the buffer keeps it: with the uid that it came with, or with
/// the one made for it.
pub open spec fn stamped(r: LogRecord, position: nat) -> LogRecord {
    LogRecord {
        uid: match r.uid {
            Some(u) => Some(u),
            None => Some(made_uid(r.timestamp, position)),
        },
        ..r
    }
}

/// The last `CAPACITY` of the records with `r` behind them.
pub open spec fn appended(records: Seq<LogRecord>, r: LogRecord) -> Seq<LogRecord> {
    let all = records.push(r);
    if all.len() > CAPACITY {
        all.skip(all.len() - CAPACITY)
    } else {
        all
    }
}

/// The records received, oldest first, at most `CAPACITY` of them.
#[derive(Debug)]
pub struct LogBuffer {
    records: Vec<SqlLogMessage>,
}

impl View for LogBuffer {
    type V = Seq<LogRecord>;

    closed spec fn view(&self) -> Seq<LogRecord> {
        records_of(self.records@)
    }
}

impl LogBuffer {
    /// A buffer without records.
    pub fn new() -> (b: Self)
        ensures
            b@ == Seq::<LogRecord>::empty(),
    {
        let b = LogBuffer { records: Vec::new() };
        assert(b@ =~= Seq::<LogRecord>::empty());
        b
    }

    /// How many records the buffer holds.
    pub fn len(&self) -> (n: usize)
        ensures
            n == self@.len(),
    {
        self.records.len()
    }

    /// The records, oldest first.
    pub fn records(&self) -> (r: &[SqlLogMessage])
        ensures
            records_of(r@) == self@,
    {
        self.records.as_slice()
    }

    /// Puts a record behind the others, gives it a uid if it has none, and
    /// drops the oldest records beyond the capacity.
    pub fn append(&mut self, record: SqlLogMessage)
        ensures
            final(self)@ == appended(old(self)@, stamped(record@, old(self)@.len())),
            final(self)@.len() <= CAPACITY,
            final(self)@.len() > 0,
            final(self)@.last() == stamped(record@, old(self)@.len()),
            old(self)@.len() == CAPACITY ==> final(self)@ == old(self)@.skip(1).push(
                stamped(record@, old(self)@.len()),
            ),
            old(self)@.len() < CAPACITY ==> final(self)@ == old(self)@.push(
                stamped(record@, old(self)@.len()),
            ),
    {
        let mut record = record;
        let ghost given = record@;
        if record.uid.is_none() {
            let mut uid = record.timestamp.clone();
            push_char(&mut uid, '-');
            push_decimal(&mut uid, self.records.len());
            assert(uid@ =~= made_uid(given.timestamp, old(self)@.len()));
            record.uid = Some(uid);
        }
        assert(record@ == stamped(given, old(self)@.len()));
        let ghost all = old(self)@.push(record@);
        self.records.push(record);
        assert(records_of(self.records@) =~= all);
        assert(all.skip(0) =~= all);
        while self.records.len() > CAPACITY
            invariant
                self.records@.len() <= all.len(),
                self.records@.len() >= CAPACITY || self.records@.len() == all.len(),
                records_of(self.records@) == all.skip(all.len() - self.records@.len()),
            decreases self.records@.len(),
        {
            let ghost before = records_of(self.records@);
            self.records.remove(0);
            assert(records_of(self.records@) =~= before.skip(1));
            assert(before.skip(1) =~= all.skip(all.len() - self.records@.len()));
        }
        assert(all.skip(0) =~= all);
        assert(old(self)@.len() == CAPACITY ==> all.skip(1) =~= old(self)@.skip(1).push(
            stamped(given, old(self)@.len()),
        ));
    }

    /// Drops every record.
    pub fn clear(&mut self)
        ensures
            final(self)@ == Seq::<LogRecord>::empty(),
    {
        self.records.clear();
        assert(self@ =~= Seq::<LogRecord>::empty());
    }
}

} // verus!
