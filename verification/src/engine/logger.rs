//! A bounded log of messages, by level and by search.

use vstd::prelude::*;
use crate::support::current_time_millis;

verus! {

/// The severity of a message.
#[derive(Debug, Clone, Copy, PartialEq, Eq, Structural)]
pub enum LogLevel {
    Debug,
    Info,
    Warning,
    Error,
}

/// A logged message with its time, severity and, where given, the search that sent it.
#[derive(Debug)]
pub struct LogEntry {
    pub timestamp: u64,
    pub level: LogLevel,
    pub message: String,
    pub thread_id: Option<String>,
}

/// What an entry says: level, message and search (its time aside).
pub open spec fn entry_content(e: LogEntry) -> (LogLevel, Seq<char>, Option<Seq<char>>) {
    (e.level, e.message@, match e.thread_id { Some(t) => Some(t@), None => None })
}

/// The log `entries` after `e` was added with room for `max` entries: the oldest entries
/// leave first.
pub open spec fn appended_bounded(entries: Seq<LogEntry>, e: LogEntry, max: nat) -> Seq<LogEntry> {
    let s = entries.push(e);
    if s.len() > max { s.skip(s.len() - max) } else { s }
}

impl LogEntry {
    /// An entry stamped with the current time.
    pub fn new(level: LogLevel, message: String, thread_id: Option<String>) -> (e: LogEntry)
        ensures
            e.level == level,
            e.message == message,
            e.thread_id == thread_id,
    {
        LogEntry { timestamp: current_time_millis(), level, message, thread_id }
    }

    /// A field-by-field copy.
    pub fn duplicate(&self) -> (e: LogEntry)
        ensures
            e == *self,
    {
        LogEntry {
            timestamp: self.timestamp,
            level: self.level,
            message: self.message.clone(),
            thread_id: match &self.thread_id {
                Some(t) => Some(t.clone()),
                None => None,
            },
        }
    }
}

/// What a log offers.
pub trait CutListLogger {
    fn log(&mut self, level: LogLevel, message: &str);

    fn log_with_thread(&mut self, level: LogLevel, message: &str, thread_id: &str);

    fn debug(&mut self, message: &str);

    fn info(&mut self, message: &str);

    fn warning(&mut self, message: &str);

    fn error(&mut self, message: &str);

    fn get_logs(&self) -> Vec<LogEntry>;

    fn clear_logs(&mut self);

    fn set_max_entries(&mut self, max_entries: usize);
}

/// A log that keeps the most recent `max_entries` entries and can be switched off.
#[derive(Debug)]
pub struct CutListLoggerImpl {
    pub entries: Vec<LogEntry>,
    pub max_entries: usize,
    pub enabled: bool,
}

/// Copies of entries.
fn copy_entries(v: &Vec<LogEntry>) -> (r: Vec<LogEntry>)
    ensures
        r@ == v@,
{
    let mut r: Vec<LogEntry> = Vec::new();
    let mut i: usize = 0;
    while i < v.len()
        invariant
            0 <= i <= v@.len(),
            r@ == v@.take(i as int),
        decreases v@.len() - i,
    {
        r.push(v[i].duplicate());
        i = i + 1;
        proof { assert(r@ =~= v@.take(i as int)); }
    }
    proof { assert(v@.take(v@.len() as int) =~= v@); }
    r
}

/// Filtering a sequence extended by one element.
proof fn lemma_filter_push_entry(s: Seq<LogEntry>, x: LogEntry, pred: spec_fn(LogEntry) -> bool)
    ensures
        s.push(x).filter(pred) == if pred(x) { s.filter(pred).push(x) } else { s.filter(pred) },
{
    reveal(Seq::filter);
    assert(s.push(x).drop_last() =~= s);
}

impl CutListLoggerImpl {
    /// An enabled, empty log with room for 1000 entries.
    pub fn new() -> (l: CutListLoggerImpl)
        ensures
            l.entries@.len() == 0,
            l.max_entries == 1000,
            l.enabled,
    {
        CutListLoggerImpl { entries: Vec::new(), max_entries: 1000, enabled: true }
    }

    /// An enabled, empty log with room for `max_entries` entries.
    pub fn with_max_entries(max_entries: usize) -> (l: CutListLoggerImpl)
        ensures
            l.entries@.len() == 0,
            l.max_entries == max_entries,
            l.enabled,
    {
        CutListLoggerImpl { entries: Vec::new(), max_entries, enabled: true }
    }

    /// Switches logging on or off.
    pub fn set_enabled(&mut self, enabled: bool)
        ensures
            *final(self) == (CutListLoggerImpl { enabled, ..*old(self) }),
    {
        self.enabled = enabled;
    }

    pub fn is_enabled(&self) -> (b: bool)
        ensures
            b == self.enabled,
    {
        self.enabled
    }

    /// Adds an entry when logging is on, then drops the oldest entries beyond the limit.
    fn add_entry(&mut self, entry: LogEntry)
        ensures
            final(self).max_entries == old(self).max_entries,
            final(self).enabled == old(self).enabled,
            final(self).entries@ == if old(self).enabled {
                appended_bounded(old(self).entries@, entry, old(self).max_entries as nat)
            } else {
                old(self).entries@
            },
    {
        if !self.enabled {
            return;
        }
        let ghost s = self.entries@.push(entry);
        self.entries.push(entry);
        let n = self.entries.len();
        assert(s.len() == n);
        let mut dropped: usize = 0;
        while self.entries.len() > self.max_entries
            invariant
                self.entries@ == s.skip(dropped as int),
                0 <= dropped <= s.len(),
                s.len() <= usize::MAX,
                dropped > 0 ==> self.entries@.len() >= self.max_entries,
                self.max_entries == old(self).max_entries,
                self.enabled == old(self).enabled,
            ensures
                self.entries@ == s.skip(dropped as int),
                self.entries@.len() <= self.max_entries,
                dropped == 0 || self.entries@.len() == self.max_entries,
                self.max_entries == old(self).max_entries,
                self.enabled == old(self).enabled,
            decreases self.entries@.len(),
        {
            self.entries.remove(0);
            dropped = dropped + 1;
            proof { assert(self.entries@ =~= s.skip(dropped as int)); }
        }
        proof {
            if dropped == 0 {
                assert(s.skip(0) =~= s);
            }
        }
    }

    /// The entries of a level, oldest first.
    pub fn get_entries_by_level(&self, level: LogLevel) -> (r: Vec<LogEntry>)
        ensures
            r@ == self.entries@.filter(|e: LogEntry| e.level == level),
    {
        let ghost pred = |e: LogEntry| e.level == level;
        let mut r: Vec<LogEntry> = Vec::new();
        let mut i: usize = 0;
        proof { reveal(Seq::filter); assert(self.entries@.take(0).filter(pred) =~= Seq::<LogEntry>::empty()); }
        while i < self.entries.len()
            invariant
                0 <= i <= self.entries@.len(),
                pred == (|e: LogEntry| e.level == level),
                r@ == self.entries@.take(i as int).filter(pred),
            decreases self.entries@.len() - i,
        {
            proof {
                assert(self.entries@.take(i + 1) =~= self.entries@.take(i as int).push(self.entries@[i as int]));
                lemma_filter_push_entry(self.entries@.take(i as int), self.entries@[i as int], pred);
            }
            if self.entries[i].level == level {
                r.push(self.entries[i].duplicate());
            }
            i = i + 1;
        }
        proof { assert(self.entries@.take(i as int) =~= self.entries@); }
        r
    }

    /// The entries of a search, oldest first.
    pub fn get_entries_by_thread(&self, thread_id: &str) -> (r: Vec<LogEntry>)
        ensures
            r@ == self.entries@.filter(|e: LogEntry| e.thread_id matches Some(t) && t@ == thread_id@),
    {
        let ghost pred = |e: LogEntry| e.thread_id matches Some(t) && t@ == thread_id@;
        let mut r: Vec<LogEntry> = Vec::new();
        let mut i: usize = 0;
        proof { reveal(Seq::filter); assert(self.entries@.take(0).filter(pred) =~= Seq::<LogEntry>::empty()); }
        while i < self.entries.len()
            invariant
                0 <= i <= self.entries@.len(),
                pred == (|e: LogEntry| e.thread_id matches Some(t) && t@ == thread_id@),
                r@ == self.entries@.take(i as int).filter(pred),
            decreases self.entries@.len() - i,
        {
            proof {
                assert(self.entries@.take(i + 1) =~= self.entries@.take(i as int).push(self.entries@[i as int]));
                lemma_filter_push_entry(self.entries@.take(i as int), self.entries@[i as int], pred);
            }
            let matches = match &self.entries[i].thread_id {
                Some(t) => crate::support::same_text(t.as_str(), thread_id),
                None => false,
            };
            if matches {
                r.push(self.entries[i].duplicate());
            }
            i = i + 1;
        }
        proof { assert(self.entries@.take(i as int) =~= self.entries@); }
        r
    }

    /// The last `count` entries (all when there are fewer), oldest first.
    pub fn get_recent_entries(&self, count: usize) -> (r: Vec<LogEntry>)
        ensures
            r@ == if self.entries@.len() > count { self.entries@.skip(self.entries@.len() - count) } else { self.entries@ },
    {
        let n = self.entries.len();
        let start: usize = if n > count { n - count } else { 0 };
        let mut r: Vec<LogEntry> = Vec::new();
        let mut i: usize = start;
        while i < n
            invariant
                start <= i <= n,
                n == self.entries@.len(),
                r@ == self.entries@.subrange(start as int, i as int),
            decreases n - i,
        {
            r.push(self.entries[i].duplicate());
            i = i + 1;
            proof { assert(r@ =~= self.entries@.subrange(start as int, i as int)); }
        }
        proof {
            assert(self.entries@.subrange(start as int, n as int) =~= if n > count {
                self.entries@.skip(n - count)
            } else {
                self.entries@
            });
        }
        r
    }
}

impl Default for CutListLoggerImpl {
    fn default() -> (l: CutListLoggerImpl)
        ensures
            l.entries@.len() == 0,
            l.max_entries == 1000,
            l.enabled,
    {
        CutListLoggerImpl::new()
    }
}

impl CutListLogger for CutListLoggerImpl {
    fn log(&mut self, level: LogLevel, message: &str)
        ensures
            final(self).max_entries == old(self).max_entries,
            final(self).enabled == old(self).enabled,
            old(self).enabled ==> exists|e: LogEntry| e.level == level && e.message@ == message@ && e.thread_id is None
                && final(self).entries@ == #[trigger] appended_bounded(old(self).entries@, e, old(self).max_entries as nat),
            !old(self).enabled ==> final(self).entries@ == old(self).entries@,
    {
        let entry = LogEntry::new(level, message.to_string(), None);
        self.add_entry(entry);
    }

    fn log_with_thread(&mut self, level: LogLevel, message: &str, thread_id: &str)
        ensures
            final(self).max_entries == old(self).max_entries,
            final(self).enabled == old(self).enabled,
            old(self).enabled ==> exists|e: LogEntry| e.level == level && e.message@ == message@
                && (e.thread_id matches Some(t) && t@ == thread_id@)
                && final(self).entries@ == #[trigger] appended_bounded(old(self).entries@, e, old(self).max_entries as nat),
            !old(self).enabled ==> final(self).entries@ == old(self).entries@,
    {
        let entry = LogEntry::new(level, message.to_string(), Some(thread_id.to_string()));
        self.add_entry(entry);
    }

    fn debug(&mut self, message: &str)
        ensures
            final(self).max_entries == old(self).max_entries,
            final(self).enabled == old(self).enabled,
            old(self).enabled ==> exists|e: LogEntry| e.level == LogLevel::Debug && e.message@ == message@ && e.thread_id is None
                && final(self).entries@ == #[trigger] appended_bounded(old(self).entries@, e, old(self).max_entries as nat),
            !old(self).enabled ==> final(self).entries@ == old(self).entries@,
    {
        self.log(LogLevel::Debug, message);
    }

    fn info(&mut self, message: &str)
        ensures
            final(self).max_entries == old(self).max_entries,
            final(self).enabled == old(self).enabled,
            old(self).enabled ==> exists|e: LogEntry| e.level == LogLevel::Info && e.message@ == message@ && e.thread_id is None
                && final(self).entries@ == #[trigger] appended_bounded(old(self).entries@, e, old(self).max_entries as nat),
            !old(self).enabled ==> final(self).entries@ == old(self).entries@,
    {
        self.log(LogLevel::Info, message);
    }

    fn warning(&mut self, message: &str)
        ensures
            final(self).max_entries == old(self).max_entries,
            final(self).enabled == old(self).enabled,
            old(self).enabled ==> exists|e: LogEntry| e.level == LogLevel::Warning && e.message@ == message@ && e.thread_id is None
                && final(self).entries@ == #[trigger] appended_bounded(old(self).entries@, e, old(self).max_entries as nat),
            !old(self).enabled ==> final(self).entries@ == old(self).entries@,
    {
        self.log(LogLevel::Warning, message);
    }

    fn error(&mut self, message: &str)
        ensures
            final(self).max_entries == old(self).max_entries,
            final(self).enabled == old(self).enabled,
            old(self).enabled ==> exists|e: LogEntry| e.level == LogLevel::Error && e.message@ == message@ && e.thread_id is None
                && final(self).entries@ == #[trigger] appended_bounded(old(self).entries@, e, old(self).max_entries as nat),
            !old(self).enabled ==> final(self).entries@ == old(self).entries@,
    {
        self.log(LogLevel::Error, message);
    }

    fn get_logs(&self) -> (r: Vec<LogEntry>)
        ensures
            r@ == self.entries@,
    {
        copy_entries(&self.entries)
    }

    fn clear_logs(&mut self)
        ensures
            final(self).entries@.len() == 0,
            final(self).max_entries == old(self).max_entries,
            final(self).enabled == old(self).enabled,
    {
        self.entries.clear();
    }

    fn set_max_entries(&mut self, max_entries: usize)
        ensures
            final(self).entries@ == old(self).entries@,
            final(self).max_entries == max_entries,
            final(self).enabled == old(self).enabled,
    {
        self.max_entries = max_entries;
    }
}

/// A log shared by the searches, forwarding to one log.
#[derive(Debug)]
pub struct GlobalLogger {
    pub logger: CutListLoggerImpl,
}

impl GlobalLogger {
    pub fn new(logger: CutListLoggerImpl) -> (g: GlobalLogger)
        ensures
            g.logger == logger,
    {
        GlobalLogger { logger }
    }

    pub fn log(&mut self, level: LogLevel, message: &str)
        ensures
            final(self).logger.max_entries == old(self).logger.max_entries,
            final(self).logger.enabled == old(self).logger.enabled,
            old(self).logger.enabled ==> exists|e: LogEntry| e.level == level && e.message@ == message@ && e.thread_id is None
                && final(self).logger.entries@ == #[trigger] appended_bounded(old(self).logger.entries@, e, old(self).logger.max_entries as nat),
            !old(self).logger.enabled ==> final(self).logger.entries@ == old(self).logger.entries@,
    {
        self.logger.log(level, message);
    }

    pub fn debug(&mut self, message: &str)
        ensures
            final(self).logger.max_entries == old(self).logger.max_entries,
            final(self).logger.enabled == old(self).logger.enabled,
            old(self).logger.enabled ==> exists|e: LogEntry| e.level == LogLevel::Debug && e.message@ == message@ && e.thread_id is None
                && final(self).logger.entries@ == #[trigger] appended_bounded(old(self).logger.entries@, e, old(self).logger.max_entries as nat),
            !old(self).logger.enabled ==> final(self).logger.entries@ == old(self).logger.entries@,
    {
        self.logger.debug(message);
    }

    pub fn info(&mut self, message: &str)
        ensures
            final(self).logger.max_entries == old(self).logger.max_entries,
            final(self).logger.enabled == old(self).logger.enabled,
            old(self).logger.enabled ==> exists|e: LogEntry| e.level == LogLevel::Info && e.message@ == message@ && e.thread_id is None
                && final(self).logger.entries@ == #[trigger] appended_bounded(old(self).logger.entries@, e, old(self).logger.max_entries as nat),
            !old(self).logger.enabled ==> final(self).logger.entries@ == old(self).logger.entries@,
    {
        self.logger.info(message);
    }

    pub fn warning(&mut self, message: &str)
        ensures
            final(self).logger.max_entries == old(self).logger.max_entries,
            final(self).logger.enabled == old(self).logger.enabled,
            old(self).logger.enabled ==> exists|e: LogEntry| e.level == LogLevel::Warning && e.message@ == message@ && e.thread_id is None
                && final(self).logger.entries@ == #[trigger] appended_bounded(old(self).logger.entries@, e, old(self).logger.max_entries as nat),
            !old(self).logger.enabled ==> final(self).logger.entries@ == old(self).logger.entries@,
    {
        self.logger.warning(message);
    }

    pub fn error(&mut self, message: &str)
        ensures
            final(self).logger.max_entries == old(self).logger.max_entries,
            final(self).logger.enabled == old(self).logger.enabled,
            old(self).logger.enabled ==> exists|e: LogEntry| e.level == LogLevel::Error && e.message@ == message@ && e.thread_id is None
                && final(self).logger.entries@ == #[trigger] appended_bounded(old(self).logger.entries@, e, old(self).logger.max_entries as nat),
            !old(self).logger.enabled ==> final(self).logger.entries@ == old(self).logger.entries@,
    {
        self.logger.error(message);
    }
}

/// Adding an entry to a log with room for `max` entries leaves the last
/// `min(max, n + 1)` entries of the old log followed by the new one (`n` entries before):
/// the oldest leave first, the log never holds more than `max` entries, nothing is lost
/// while there is room, and the entry added is the last one kept unless `max` is zero.
pub proof fn lemma_bounded_log(entries: Seq<LogEntry>, e: LogEntry, max: nat)
    ensures
        appended_bounded(entries, e, max).len()
            == if entries.len() + 1 <= max { entries.len() + 1 } else { max },
        appended_bounded(entries, e, max)
            == entries.push(e).skip(entries.len() + 1 - appended_bounded(entries, e, max).len()),
        appended_bounded(entries, e, max).len() <= max,
        entries.len() < max ==> appended_bounded(entries, e, max) == entries.push(e),
        max > 0 ==> appended_bounded(entries, e, max).last() == e,
{
    let s = entries.push(e);
    if s.len() <= max {
        assert(s.skip(0) =~= s);
    }
}

} // verus!
