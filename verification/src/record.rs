//! Records and the keys by which they are grouped.

use vstd::prelude::*;
use vstd::string::StringExecFns;

verus! {

/// One query-log record as it was received.
#[derive(Debug, PartialEq, Eq)]
pub struct SqlLogMessage {
    pub statement: String,
    pub duration: u64,
    pub timestamp: String,
    pub endpoint: Option<String>,
    pub http_method: Option<String>,
    pub caller_namespace: Option<String>,
    pub caller_class: Option<String>,
    pub caller_method: Option<String>,
    pub uid: Option<String>,
}

/// What a record holds, as plain text.
pub ghost struct LogRecord {
    pub statement: Seq<char>,
    pub duration: u64,
    pub timestamp: Seq<char>,
    pub endpoint: Option<Seq<char>>,
    pub http_method: Option<Seq<char>>,
    pub caller_namespace: Option<Seq<char>>,
    pub caller_class: Option<Seq<char>>,
    pub caller_method: Option<Seq<char>>,
    pub uid: Option<Seq<char>>,
}

/// The text of an optional string.
pub open spec fn text_of(s: Option<String>) -> Option<Seq<char>> {
    match s {
        Some(t) => Some(t@),
        None => None,
    }
}

impl View for SqlLogMessage {
    type V = LogRecord;

    open spec fn view(&self) -> LogRecord {
        LogRecord {
            statement: self.statement@,
            duration: self.duration,
            timestamp: self.timestamp@,
            endpoint: text_of(self.endpoint),
            http_method: text_of(self.http_method),
            caller_namespace: text_of(self.caller_namespace),
            caller_class: text_of(self.caller_class),
            caller_method: text_of(self.caller_method),
            uid: text_of(self.uid),
        }
    }
}

/// A copy of an optional string.
pub fn clone_text(s: &Option<String>) -> (r: Option<String>)
    ensures
        text_of(r) == text_of(*s),
{
    match s {
        Some(t) => Some(t.clone()),
        None => None,
    }
}

impl Clone for SqlLogMessage {
    fn clone(&self) -> (r: Self)
        ensures
            r@ == self@,
    {
        SqlLogMessage {
            statement: self.statement.clone(),
            duration: self.duration,
            timestamp: self.timestamp.clone(),
            endpoint: clone_text(&self.endpoint),
            http_method: clone_text(&self.http_method),
            caller_namespace: clone_text(&self.caller_namespace),
            caller_class: clone_text(&self.caller_class),
            caller_method: clone_text(&self.caller_method),
            uid: clone_text(&self.uid),
        }
    }
}

/// The key under which records are gathered: what the group is shown as, and
/// the tag of its method.
pub ghost struct GroupKey {
    pub label: Seq<char>,
    pub method: Seq<char>,
}

/// How a record without an HTTP method is shown: by the code that issued it.
pub open spec fn caller_label(method: Option<Seq<char>>, class: Option<Seq<char>>) -> Seq<char> {
    match (method, class) {
        (Some(m), Some(c)) => m + " in "@ + c,
        (Some(m), None) => m,
        (None, Some(c)) => "in "@ + c,
        (None, None) => "N/A"@,
    }
}

/// The key of a record. Without an HTTP method it is the caller, tagged
/// `CALL`; with one it is the endpoint (`N/A` if there is none) and the method.
pub open spec fn group_key(r: LogRecord) -> GroupKey {
    match r.http_method {
        None => GroupKey { label: caller_label(r.caller_method, r.caller_class), method: "CALL"@ },
        Some(m) => GroupKey {
            label: match r.endpoint {
                Some(e) => e,
                None => "N/A"@,
            },
            method: m,
        },
    }
}

/// The key of a group of records, held as two strings.
#[derive(Debug, PartialEq, Eq, Hash)]
pub struct RequestGroup {
    pub endpoint: String,
    pub http_method: String,
}

impl View for RequestGroup {
    type V = GroupKey;

    open spec fn view(&self) -> GroupKey {
        GroupKey { label: self.endpoint@, method: self.http_method@ }
    }
}

impl Clone for RequestGroup {
    fn clone(&self) -> (r: Self)
        ensures
            r@ == self@,
    {
        RequestGroup { endpoint: self.endpoint.clone(), http_method: self.http_method.clone() }
    }
}

impl RequestGroup {
    /// The key of `msg`.
    pub fn from_message(msg: &SqlLogMessage) -> (g: Self)
        ensures
            g@ == group_key(msg@),
    {
        match &msg.http_method {
            None => {
                let label = match (&msg.caller_method, &msg.caller_class) {
                    (Some(method), Some(class)) => {
                        let mut s = method.clone();
                        s.append(" in ");
                        s.append(class.as_str());
                        s
                    },
                    (Some(method), None) => method.clone(),
                    (None, Some(class)) => {
                        let mut s = String::from_str("in ");
                        s.append(class.as_str());
                        s
                    },
                    (None, None) => String::from_str("N/A"),
                };
                RequestGroup { endpoint: label, http_method: String::from_str("CALL") }
            },
            Some(method) => {
                let endpoint = match &msg.endpoint {
                    Some(e) => e.clone(),
                    None => String::from_str("N/A"),
                };
                RequestGroup { endpoint, http_method: method.clone() }
            },
        }
    }

    /// Whether two keys are the same key.
    pub fn same_as(&self, other: &Self) -> (r: bool)
        ensures
            r == (self@ == other@),
    {
        self.endpoint == other.endpoint && self.http_method == other.http_method
    }
}

} // verus!
