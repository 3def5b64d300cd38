//! An in-memory log: entries of a severity and a message, kept in the order
//! they were written, and read back whole or down to a severity.
use vstd::prelude::*;

verus! {

/// The severity of a log entry, most severe first.
#[derive(Clone, Copy, Debug, PartialEq, Eq, Structural)]
pub enum LogLevel {
    Error,
    Warn,
    Info,
    Debug,
    Trace,
}

/// The rank of a severity: 1 for errors up to 5 for traces.
pub open spec fn level_rank(l: LogLevel) -> nat {
    match l {
        LogLevel::Error => 1,
        LogLevel::Warn => 2,
        LogLevel::Info => 3,
        LogLevel::Debug => 4,
        LogLevel::Trace => 5,
    }
}

/// The upper-case name of a severity.
pub open spec fn level_text(l: LogLevel) -> Seq<char> {
    match l {
        LogLevel::Error => "ERROR"@,
        LogLevel::Warn => "WARN"@,
        LogLevel::Info => "INFO"@,
        LogLevel::Debug => "DEBUG"@,
        LogLevel::Trace => "TRACE"@,
    }
}

/// The code of `c`, with the code of an ASCII upper-case letter replaced
/// by that of the lower-case one.
pub open spec fn folded_code(c: char) -> u32 {
    if 'A' <= c <= 'Z' {
        ((c as u32) + 32) as u32
    } else {
        c as u32
    }
}

/// The codes of `s` with ASCII case folded: two texts fold alike exactly
/// when they are equal up to ASCII case.
pub open spec fn ascii_folded(s: Seq<char>) -> Seq<u32> {
    s.map_values(|c: char| folded_code(c))
}

/// The severity that `s` names, in any mix of cases.
pub open spec fn named_level(s: Seq<char>) -> Option<LogLevel> {
    let t = ascii_folded(s);
    if t == ascii_folded("trace"@) {
        Some(LogLevel::Trace)
    } else if t == ascii_folded("debug"@) {
        Some(LogLevel::Debug)
    } else if t == ascii_folded("info"@) {
        Some(LogLevel::Info)
    } else if t == ascii_folded("warn"@) {
        Some(LogLevel::Warn)
    } else if t == ascii_folded("error"@) {
        Some(LogLevel::Error)
    } else {
        None
    }
}

/// Whether an entry of severity `l` is shown under `filter`: every entry
/// without a filter; under a named severity, the entries at least as severe;
/// none under a name that is no severity.
pub open spec fn shown(l: LogLevel, filter: Option<Seq<char>>) -> bool {
    match filter {
        None => true,
        Some(f) => match named_level(f) {
            Some(max) => level_rank(l) <= level_rank(max),
            None => false,
        },
    }
}

/// The entries of `logs` shown under `filter`, in order.
pub open spec fn filtered(logs: Seq<LogEntry>, filter: Option<Seq<char>>) -> Seq<LogEntry>
    decreases logs.len(),
{
    if logs.len() == 0 {
        Seq::empty()
    } else {
        let rest = filtered(logs.drop_last(), filter);
        if shown(logs.last().level, filter) {
            rest.push(logs.last())
        } else {
            rest
        }
    }
}

impl LogLevel {
    /// The upper-case name of the severity.
    pub fn as_str(&self) -> (s: &'static str)
        ensures
            s@ == level_text(*self),
    {
        match self {
            LogLevel::Error => "ERROR",
            LogLevel::Warn => "WARN",
            LogLevel::Info => "INFO",
            LogLevel::Debug => "DEBUG",
            LogLevel::Trace => "TRACE",
        }
    }
}

/// One entry of the log.
pub struct LogEntry {
    pub level: LogLevel,
    pub message: String,
}

impl LogEntry {
    /// A copy of the entry.
    pub fn duplicate(&self) -> (e: Self)
        ensures
            e == *self,
    {
        LogEntry { level: self.level, message: self.message.clone() }
    }
}

/// A log kept in memory.
pub struct InMemoryLogger {
    logs: Vec<LogEntry>,
}

impl Default for InMemoryLogger {
    /// An empty log, as `new` makes.
    fn default() -> (l: Self)
        ensures
            l.entries() == Seq::<LogEntry>::empty(),
    {
        InMemoryLogger::new()
    }
}

impl InMemoryLogger {
    /// The entries written so far, oldest first.
    pub closed spec fn entries(&self) -> Seq<LogEntry> {
        self.logs@
    }

    /// An empty log.
    pub fn new() -> (l: Self)
        ensures
            l.entries() == Seq::<LogEntry>::empty(),
    {
        InMemoryLogger { logs: Vec::new() }
    }

    /// Whether entries of severity `level` are kept: all of them are.
    pub fn enabled(&self, level: LogLevel) -> (r: bool)
        ensures
            r == (level_rank(level) <= level_rank(LogLevel::Trace)),
    {
        match level {
            LogLevel::Error | LogLevel::Warn | LogLevel::Info | LogLevel::Debug | LogLevel::Trace => true,
        }
    }

    /// Writes an entry at the end of the log.
    pub fn log(&mut self, level: LogLevel, message: String)
        ensures
            final(self).entries() == old(self).entries().push(LogEntry { level, message }),
    {
        if self.enabled(level) {
            self.logs.push(LogEntry { level, message });
        }
    }

    /// A copy of every entry, oldest first.
    pub fn get_logs(&self) -> (v: Vec<LogEntry>)
        ensures
            v@ == self.entries(),
    {
        let mut v: Vec<LogEntry> = Vec::new();
        let mut i: usize = 0;
        while i < self.logs.len()
            invariant
                i <= self.logs@.len(),
                v@ == self.logs@.take(i as int),
            decreases self.logs@.len() - i,
        {
            v.push(self.logs[i].duplicate());
            i = i + 1;
            assert(v@ =~= self.logs@.take(i as int));
        }
        assert(self.logs@.take(i as int) =~= self.logs@);
        v
    }
}

/// `a` and `b` are equal up to ASCII case.
fn eq_ignore_ascii_case(a: &str, b: &str) -> (r: bool)
    ensures
        r == (ascii_folded(a@) == ascii_folded(b@)),
{
    let n = a.unicode_len();
    if n != b.unicode_len() {
        proof {
            assert(ascii_folded(a@).len() != ascii_folded(b@).len());
        }
        return false;
    }
    let mut i: usize = 0;
    while i < n
        invariant
            n == a@.len() == b@.len(),
            i <= n,
            forall|j: int| 0 <= j < i ==> folded_code(#[trigger] a@[j]) == folded_code(b@[j]),
        decreases n - i,
    {
        let x = a.get_char(i);
        let y = b.get_char(i);
        if fold_code(x) != fold_code(y) {
            proof {
                assert(ascii_folded(a@)[i as int] != ascii_folded(b@)[i as int]);
            }
            return false;
        }
        i = i + 1;
    }
    assert(ascii_folded(a@) =~= ascii_folded(b@));
    true
}

/// The code of `c` with ASCII case folded.
fn fold_code(c: char) -> (r: u32)
    ensures
        r == folded_code(c),
{
    if 'A' <= c && c <= 'Z' {
        (c as u32) + 32
    } else {
        c as u32
    }
}

/// The severity that `s` names, in any mix of cases.
pub fn level_named(s: &str) -> (r: Option<LogLevel>)
    ensures
        r == named_level(s@),
{
    if eq_ignore_ascii_case(s, "trace") {
        Some(LogLevel::Trace)
    } else if eq_ignore_ascii_case(s, "debug") {
        Some(LogLevel::Debug)
    } else if eq_ignore_ascii_case(s, "info") {
        Some(LogLevel::Info)
    } else if eq_ignore_ascii_case(s, "warn") {
        Some(LogLevel::Warn)
    } else if eq_ignore_ascii_case(s, "error") {
        Some(LogLevel::Error)
    } else {
        None
    }
}

/// The entries of `logs` shown under `level`, in order: all of them without
/// a severity; the ones at least as severe as a named severity (in any mix
/// of cases); none under a name that is no severity.
pub fn filter_logs(logs: &Vec<LogEntry>, level: Option<&str>) -> (v: Vec<LogEntry>)
    ensures
        v@ == filtered(logs@, match level { Some(s) => Some(s@), None => None }),
{
    let ghost filter = match level { Some(s) => Some(s@), None => None::<Seq<char>> };
    let max: Option<LogLevel> = match level {
        Some(s) => level_named(s),
        None => Some(LogLevel::Trace),
    };
    let mut v: Vec<LogEntry> = Vec::new();
    let mut i: usize = 0;
    while i < logs.len()
        invariant
            i <= logs@.len(),
            v@ == filtered(logs@.take(i as int), filter),
            filter == (match level { Some(s) => Some(s@), None => None::<Seq<char>> }),
            level is None ==> max == Some(LogLevel::Trace),
            level matches Some(s) ==> max == named_level(s@),
        decreases logs@.len() - i,
    {
        let e = &logs[i];
        let keep = match max {
            Some(m) => rank(e.level) <= rank(m),
            None => false,
        };
        assert(logs@.take(i + 1).drop_last() =~= logs@.take(i as int));
        if keep {
            v.push(e.duplicate());
        }
        i = i + 1;
    }
    assert(logs@.take(i as int) =~= logs@);
    v
}

/// The rank of a severity.
fn rank(l: LogLevel) -> (r: u8)
    ensures
        r == level_rank(l),
{
    match l {
        LogLevel::Error => 1,
        LogLevel::Warn => 2,
        LogLevel::Info => 3,
        LogLevel::Debug => 4,
        LogLevel::Trace => 5,
    }
}

/// The severities in their fixed order, most severe first: error, warn,
/// info, debug, trace.
pub proof fn lemma_severity_order()
    ensures
        level_rank(LogLevel::Error) < level_rank(LogLevel::Warn),
        level_rank(LogLevel::Warn) < level_rank(LogLevel::Info),
        level_rank(LogLevel::Info) < level_rank(LogLevel::Debug),
        level_rank(LogLevel::Debug) < level_rank(LogLevel::Trace),
{
}

/// Under a filter that names severity `max`, an entry of severity `l` is
/// shown exactly when `l` is at least as severe as `max`, in the order
/// error, warn, info, debug, trace.
pub proof fn lemma_shown_under_named(l: LogLevel, f: Seq<char>, max: LogLevel)
    requires
        named_level(f) == Some(max),
    ensures
        shown(l, Some(f)) <==> match max {
            LogLevel::Error => l is Error,
            LogLevel::Warn => l is Error || l is Warn,
            LogLevel::Info => l is Error || l is Warn || l is Info,
            LogLevel::Debug => !(l is Trace),
            LogLevel::Trace => true,
        },
{
}

} // verus!
