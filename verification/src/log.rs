//! A bounded in-memory log: each entry has a level, a message and the local
//! time of day; only the most recent `max` entries are kept.
use vstd::prelude::*;
use crate::clock;
use crate::text::{self, dec_fixed};

verus! {

pub struct LogEntry {
    pub level: String,
    pub msg: String,
    pub time: String,
}

pub struct LogEntryView {
    pub level: Seq<char>,
    pub msg: Seq<char>,
    pub time: Seq<char>,
}

impl View for LogEntry {
    type V = LogEntryView;

    open spec fn view(&self) -> LogEntryView {
        LogEntryView { level: self.level@, msg: self.msg@, time: self.time@ }
    }
}

impl LogEntry {
    /// A copy of the entry.
    pub fn duplicate(&self) -> (r: LogEntry)
        ensures
            r@ == self@,
    {
        LogEntry { level: self.level.clone(), msg: self.msg.clone(), time: self.time.clone() }
    }
}

/// Simple in-memory ring buffer log for the app.
pub struct AppLog {
    entries: Vec<LogEntry>,
    max: usize,
}

pub open spec fn log_entries_view(s: Seq<LogEntry>) -> Seq<LogEntryView> {
    s.map_values(|e: LogEntry| e@)
}

/// The last `max` elements of `s` (all of them when there are fewer).
pub open spec fn keep_last<A>(s: Seq<A>, max: nat) -> Seq<A> {
    if s.len() > max {
        s.skip(s.len() - max)
    } else {
        s
    }
}

/// `HH:MM:SS`.
pub open spec fn clock_text(h: nat, m: nat, s: nat) -> Seq<char> {
    dec_fixed(h, 2) + seq![':'] + dec_fixed(m, 2) + seq![':'] + dec_fixed(s, 2)
}

/// The entry that `push_at(level, msg, ..)` records at time of day `time`.
pub open spec fn entry_view(level: Seq<char>, msg: Seq<char>, time: Seq<char>) -> LogEntryView {
    LogEntryView { level, msg, time }
}

/// The log after recording `e`.
pub open spec fn pushed(entries: Seq<LogEntryView>, e: LogEntryView, max: nat) -> Seq<LogEntryView> {
    keep_last(entries.push(e), max)
}

/// Recording into a bounded log keeps the most recent entries: trimming to
/// `max` and then recording `e` (and trimming again) gives the same log as
/// recording `e` into the untrimmed history and trimming once. So the log
/// always holds the last `max` entries ever recorded, and never more.
pub proof fn law_log_keeps_latest<A>(s: Seq<A>, e: A, max: nat)
    ensures
        keep_last(keep_last(s, max).push(e), max) == keep_last(s.push(e), max),
        keep_last(s.push(e), max).len() <= max,
{
    if s.len() > max {
        assert(keep_last(keep_last(s, max).push(e), max) =~= keep_last(s.push(e), max));
    }
}

impl AppLog {
    /// The recorded entries, oldest first.
    pub closed spec fn entries(&self) -> Seq<LogEntryView> {
        log_entries_view(self.entries@)
    }

    /// The number of entries kept.
    pub closed spec fn capacity(&self) -> nat {
        self.max as nat
    }

    /// Never more than `capacity` entries.
    #[verifier::type_invariant]
    closed spec fn well_formed(&self) -> bool {
        self.entries@.len() <= self.max
    }

    pub fn new(max: usize) -> (r: AppLog)
        ensures
            r.entries() == Seq::<LogEntryView>::empty(),
            r.capacity() == max,
    {
        let r = AppLog { entries: Vec::new(), max };
        assert(r.entries() =~= Seq::<LogEntryView>::empty());
        r
    }

    /// The time of day `h:m:s` as `HH:MM:SS`.
    pub fn clock_stamp(h: u32, m: u32, s: u32) -> (r: String)
        requires
            h < 24,
            m < 60,
            s < 60,
        ensures
            r@ == clock_text(h as nat, m as nat, s as nat),
    {
        let mut t = text::dec_fixed_string(h as u64, 2);
        t.append(":");
        t.append(text::dec_fixed_string(m as u64, 2).as_str());
        t.append(":");
        t.append(text::dec_fixed_string(s as u64, 2).as_str());
        proof {
            reveal_strlit(":");
            assert(t@ =~= clock_text(h as nat, m as nat, s as nat));
        }
        t
    }

    pub fn info(&mut self, msg: String)
        ensures
            final(self).capacity() == old(self).capacity(),
            exists|h: nat, m: nat, s: nat|
                h < 24 && m < 60 && s < 60 && final(self).entries() == pushed(
                    old(self).entries(),
                    entry_view("INFO"@, msg@, #[trigger] clock_text(h, m, s)),
                    old(self).capacity(),
                ),
    {
        let (h, m, s) = clock::local_clock();
        self.push_at("INFO", msg, h, m, s);
    }

    pub fn warn(&mut self, msg: String)
        ensures
            final(self).capacity() == old(self).capacity(),
            exists|h: nat, m: nat, s: nat|
                h < 24 && m < 60 && s < 60 && final(self).entries() == pushed(
                    old(self).entries(),
                    entry_view("WARN"@, msg@, #[trigger] clock_text(h, m, s)),
                    old(self).capacity(),
                ),
    {
        let (h, m, s) = clock::local_clock();
        self.push_at("WARN", msg, h, m, s);
    }

    pub fn error(&mut self, msg: String)
        ensures
            final(self).capacity() == old(self).capacity(),
            exists|h: nat, m: nat, s: nat|
                h < 24 && m < 60 && s < 60 && final(self).entries() == pushed(
                    old(self).entries(),
                    entry_view("ERROR"@, msg@, #[trigger] clock_text(h, m, s)),
                    old(self).capacity(),
                ),
    {
        let (h, m, s) = clock::local_clock();
        self.push_at("ERROR", msg, h, m, s);
    }

    /// Record an entry stamped with the time of day `h:m:s`, dropping the
    /// oldest entries beyond the capacity.
    pub fn push_at(&mut self, level: &str, msg: String, h: u32, m: u32, s: u32)
        requires
            h < 24,
            m < 60,
            s < 60,
        ensures
            final(self).capacity() == old(self).capacity(),
            final(self).entries() == pushed(
                old(self).entries(),
                entry_view(level@, msg@, clock_text(h as nat, m as nat, s as nat)),
                old(self).capacity(),
            ),
    {
        proof {
            use_type_invariant(&*self);
        }
        let time = Self::clock_stamp(h, m, s);
        let max = self.max;
        let e = LogEntry { level: text::owned(level), msg, time };
        let mut entries: Vec<LogEntry> = Vec::new();
        std::mem::swap(&mut entries, &mut self.entries);
        let ghost all = log_entries_view(entries@).push(e@);
        entries.push(e);
        assert(log_entries_view(entries@) =~= all);
        let ghost mut dropped: int = 0;
        while entries.len() > max
            invariant
                0 <= dropped <= all.len(),
                log_entries_view(entries@) =~= all.skip(dropped),
                all.len() <= max + 1,
                dropped > 0 ==> entries@.len() >= max,
            decreases entries@.len(),
        {
            let ghost before = entries@;
            entries.remove(0);
            proof {
                assert(entries@ =~= before.subrange(1, before.len() as int));
                assert(all.skip(dropped + 1) =~= all.skip(dropped).subrange(
                    1,
                    all.skip(dropped).len() as int,
                ));
                dropped = dropped + 1;
            }
        }
        assert(log_entries_view(entries@) =~= keep_last(all, max as nat));
        self.entries = entries;
    }

    /// A copy of all entries, oldest first.
    pub fn get_all(&self) -> (r: Vec<LogEntry>)
        ensures
            log_entries_view(r@) == self.entries(),
    {
        let mut out: Vec<LogEntry> = Vec::new();
        let mut i: usize = 0;
        while i < self.entries.len()
            invariant
                i <= self.entries@.len(),
                out@.len() == i,
                forall|j: int| 0 <= j < i ==> (#[trigger] out@[j])@ == self.entries@[j]@,
            decreases self.entries@.len() - i,
        {
            out.push(self.entries[i].duplicate());
            i = i + 1;
        }
        assert(log_entries_view(out@) =~= log_entries_view(self.entries@));
        out
    }
}

} // verus!
