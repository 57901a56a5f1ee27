//! In-memory log collector that the ArkTS side reads back: a bounded list of
//! entries plus the last error and panic messages.

use vstd::prelude::*;
use std::time::{Duration, SystemTime};

verus! {

/// Severity of a log entry.
#[derive(Debug, Clone, Copy, PartialEq, Eq, Structural)]
pub enum LogLevel {
    Error,
    Warn,
    Info,
    Debug,
    Trace,
}

/// One log line.
#[derive(Debug, Clone)]
pub struct LogEntry {
    pub timestamp: u64,
    pub level: LogLevel,
    pub message: String,
    pub file: Option<String>,
    pub line: Option<u32>,
}

/// How many entries a collector keeps; older ones are dropped first.
pub const MAX_LOG_ENTRIES: usize = 1000;

/// The collector.
pub struct LogCollector {
    entries: Vec<LogEntry>,
    max_entries: usize,
    error_message: Option<String>,
    panic_message: Option<String>,
}

/// The entries kept after appending `e` to `kept`: the oldest is dropped
/// once there are more than `MAX_LOG_ENTRIES`.
pub open spec fn append_bounded(kept: Seq<LogEntry>, e: LogEntry) -> Seq<LogEntry> {
    if kept.len() + 1 > MAX_LOG_ENTRIES {
        kept.push(e).drop_first()
    } else {
        kept.push(e)
    }
}

/// The name a level is printed with.
pub open spec fn level_name(level: LogLevel) -> Seq<char> {
    match level {
        LogLevel::Error => "ERROR"@,
        LogLevel::Warn => "WARN"@,
        LogLevel::Info => "INFO"@,
        LogLevel::Debug => "DEBUG"@,
        LogLevel::Trace => "TRACE"@,
    }
}

/// `[LEVEL] message`.
pub open spec fn entry_line(e: LogEntry) -> Seq<char> {
    "["@ + level_name(e.level) + "] "@ + e.message@
}

/// The lines of `entries` joined by newlines.
pub open spec fn log_text(entries: Seq<LogEntry>) -> Seq<char>
    decreases entries.len(),
{
    if entries.len() == 0 {
        Seq::empty()
    } else if entries.len() == 1 {
        entry_line(entries[0])
    } else {
        log_text(entries.drop_last()) + "\n"@ + entry_line(entries.last())
    }
}

#[verifier::external_type_specification]
#[verifier::external_body]
pub struct ExSystemTime(SystemTime);

/// `SystemTime::now`: the clock's reading. It depends on the clock, so
/// nothing is stated of it.
#[verifier::external_body]
fn clock_now() -> SystemTime {
    SystemTime::now()
}

/// `SystemTime::duration_since(UNIX_EPOCH)`: how long after the epoch `t`
/// lies, or `None` when `t` is before it. Nothing is stated of the value,
/// which only the clock's reading decides.
#[verifier::external_body]
fn since_epoch(t: &SystemTime) -> Option<Duration> {
    t.duration_since(SystemTime::UNIX_EPOCH).ok()
}

/// `Duration::as_millis`: the whole milliseconds of `d`. The duration is
/// opaque here, so nothing is stated of the value.
#[verifier::external_body]
fn whole_millis(d: &Duration) -> u128 {
    d.as_millis()
}

/// Milliseconds since the Unix epoch (0 if the clock is before the epoch),
/// cut to 64 bits.
fn unix_millis() -> u64 {
    let now = clock_now();
    match since_epoch(&now) {
        Some(d) => {
            let ms = whole_millis(&d);
            #[verifier::truncate]
            (ms as u64)
        },
        None => 0,
    }
}

fn copy_text(s: &Option<String>) -> (r: Option<String>)
    ensures
        r == *s,
{
    match s {
        Some(t) => Some(t.clone()),
        None => None,
    }
}

fn copy_entry(e: &LogEntry) -> (c: LogEntry)
    ensures
        c == *e,
{
    LogEntry {
        timestamp: e.timestamp,
        level: e.level,
        message: e.message.clone(),
        file: copy_text(&e.file),
        line: e.line,
    }
}

fn level_text(level: LogLevel) -> (s: &'static str)
    ensures
        s@ == level_name(level),
{
    match level {
        LogLevel::Error => "ERROR",
        LogLevel::Warn => "WARN",
        LogLevel::Info => "INFO",
        LogLevel::Debug => "DEBUG",
        LogLevel::Trace => "TRACE",
    }
}

impl LogCollector {
    /// The entries, oldest first.
    pub closed spec fn entries(&self) -> Seq<LogEntry> {
        self.entries@
    }

    /// The last error message set and not cleared.
    pub closed spec fn error(&self) -> Option<String> {
        self.error_message
    }

    /// The last panic message set.
    pub closed spec fn panic_message(&self) -> Option<String> {
        self.panic_message
    }

    /// At most `MAX_LOG_ENTRIES` entries are kept.
    pub closed spec fn wf(&self) -> bool {
        self.max_entries == MAX_LOG_ENTRIES && self.entries@.len() <= MAX_LOG_ENTRIES
    }

    pub fn new() -> (c: Self)
        ensures
            c.wf(),
            c.entries() == Seq::<LogEntry>::empty(),
            c.error() is None,
            c.panic_message() is None,
    {
        LogCollector {
            entries: Vec::with_capacity(MAX_LOG_ENTRIES),
            max_entries: MAX_LOG_ENTRIES,
            error_message: None,
            panic_message: None,
        }
    }

    /// Appends an entry stamped `timestamp`, dropping the oldest entry when
    /// more than `MAX_LOG_ENTRIES` would be kept.
    pub fn log_at(
        &mut self,
        timestamp: u64,
        level: LogLevel,
        message: String,
        file: Option<String>,
        line: Option<u32>,
    )
        requires
            old(self).wf(),
        ensures
            final(self).wf(),
            final(self).entries() == append_bounded(
                old(self).entries(),
                LogEntry { timestamp, level, message, file, line },
            ),
            final(self).error() == old(self).error(),
            final(self).panic_message() == old(self).panic_message(),
    {
        let ghost e = LogEntry { timestamp, level, message, file, line };
        self.entries.push(LogEntry { timestamp, level, message, file, line });
        if self.entries.len() > self.max_entries {
            self.entries.remove(0);
        }
        assert(self.entries@ =~= append_bounded(old(self).entries@, e));
    }

    /// Appends an entry stamped with the current time.
    pub fn log(&mut self, level: LogLevel, message: String, file: Option<String>, line: Option<u32>)
        requires
            old(self).wf(),
        ensures
            final(self).wf(),
            final(self).entries() == append_bounded(
                old(self).entries(),
                LogEntry { timestamp: final(self).entries().last().timestamp, level, message, file, line },
            ),
            final(self).error() == old(self).error(),
            final(self).panic_message() == old(self).panic_message(),
    {
        let timestamp = unix_millis();
        self.log_at(timestamp, level, message, file, line);
    }

    /// A copy of every entry, oldest first.
    pub fn get_logs(&self) -> (r: Vec<LogEntry>)
        ensures
            r@ == self.entries(),
    {
        let mut out: Vec<LogEntry> = Vec::new();
        let mut i: usize = 0;
        while i < self.entries.len()
            invariant
                i <= self.entries@.len(),
                out@ == self.entries@.take(i as int),
            decreases self.entries@.len() - i,
        {
            out.push(copy_entry(&self.entries[i]));
            i = i + 1;
            assert(out@ =~= self.entries@.take(i as int));
        }
        assert(self.entries@.take(i as int) =~= self.entries@);
        out
    }

    /// Every entry as `[LEVEL] message`, one per line.
    pub fn get_logs_string(&self) -> (s: String)
        ensures
            s@ == log_text(self.entries()),
    {
        let mut s = String::new();
        let mut i: usize = 0;
        while i < self.entries.len()
            invariant
                i <= self.entries@.len(),
                s@ == log_text(self.entries@.take(i as int)),
            decreases self.entries@.len() - i,
        {
            let e = &self.entries[i];
            if i > 0 {
                s.append("\n");
            }
            s.append("[");
            s.append(level_text(e.level));
            s.append("] ");
            s.append(e.message.as_str());
            proof {
                let t = self.entries@.take(i + 1);
                assert(t.drop_last() =~= self.entries@.take(i as int));
                assert(t.last() == *e);
                if i == 0 {
                    assert(t.len() == 1 && t[0] == *e);
                    assert(s@ =~= entry_line(*e));
                } else {
                    assert(s@ =~= log_text(self.entries@.take(i as int)) + "\n"@ + entry_line(*e));
                }
            }
            i = i + 1;
        }
        assert(self.entries@.take(i as int) =~= self.entries@);
        s
    }

    /// Records `message` as the current error and logs it at error level.
    pub fn set_error(&mut self, message: String)
        requires
            old(self).wf(),
        ensures
            final(self).wf(),
            final(self).error() == Some(message),
            final(self).entries() == append_bounded(
                old(self).entries(),
                LogEntry {
                    timestamp: final(self).entries().last().timestamp,
                    level: LogLevel::Error,
                    message,
                    file: None,
                    line: None,
                },
            ),
            final(self).panic_message() == old(self).panic_message(),
    {
        self.error_message = Some(message.clone());
        self.log(LogLevel::Error, message, None, None);
    }

    /// The current error message.
    pub fn get_error(&self) -> (r: Option<String>)
        ensures
            r == self.error(),
    {
        copy_text(&self.error_message)
    }

    /// Records `message` as the panic message and logs `PANIC: message` at
    /// error level.
    pub fn set_panic(&mut self, message: String)
        requires
            old(self).wf(),
        ensures
            final(self).wf(),
            final(self).panic_message() == Some(message),
            final(self).entries().last().message@ == "PANIC: "@ + message@,
            final(self).entries() == append_bounded(
                old(self).entries(),
                LogEntry {
                    timestamp: final(self).entries().last().timestamp,
                    level: LogLevel::Error,
                    message: final(self).entries().last().message,
                    file: None,
                    line: None,
                },
            ),
            final(self).error() == old(self).error(),
    {
        self.panic_message = Some(message.clone());
        let mut text = String::from_str("PANIC: ");
        text.append(message.as_str());
        self.log(LogLevel::Error, text, None, None);
    }

    /// The panic message.
    pub fn get_panic(&self) -> (r: Option<String>)
        ensures
            r == self.panic_message(),
    {
        copy_text(&self.panic_message)
    }

    /// Drops every entry and the error message; the panic message stays.
    pub fn clear(&mut self)
        requires
            old(self).wf(),
        ensures
            final(self).wf(),
            final(self).entries() == Seq::<LogEntry>::empty(),
            final(self).error() is None,
            final(self).panic_message() == old(self).panic_message(),
    {
        self.entries.clear();
        self.error_message = None;
    }
}

/// A well-formed collector holds at most `MAX_LOG_ENTRIES` entries.
pub proof fn lemma_log_within_bound(c: &LogCollector)
    ensures
        c.wf() ==> c.entries().len() <= MAX_LOG_ENTRIES,
{
}

/// However many entries are logged, a collector keeps at most
/// `MAX_LOG_ENTRIES` of them, and the newest is always the last one logged.
pub proof fn lemma_log_bounded(kept: Seq<LogEntry>, e: LogEntry)
    requires
        kept.len() <= MAX_LOG_ENTRIES,
    ensures
        append_bounded(kept, e).len() <= MAX_LOG_ENTRIES,
        append_bounded(kept, e).last() == e,
        kept.len() < MAX_LOG_ENTRIES ==> append_bounded(kept, e).drop_last() == kept,
        kept.len() == MAX_LOG_ENTRIES ==> append_bounded(kept, e).drop_last() == kept.drop_first(),
{
    if kept.len() == MAX_LOG_ENTRIES {
        assert(kept.push(e).drop_first().drop_last() =~= kept.drop_first());
    } else {
        assert(kept.push(e).drop_last() =~= kept);
    }
}

} // verus!
