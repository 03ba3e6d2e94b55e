//! The ring buffer the settings window's Log view reads, and how one event is
//! flattened into a line of it. Installing the process-wide subscriber and the
//! daily log file belong to the platform layer.

use std::collections::VecDeque;

use vstd::prelude::*;

use crate::text::{concat, push_char, push_str};

verus! {

/// One log event, flattened for the UI.
#[derive(Clone, Debug)]
pub struct LogEntry {
    /// Unix milliseconds.
    pub ts_ms: u64,
    pub level: String,
    pub target: String,
    pub message: String,
}

impl LogEntry {
    /// A second entry with the same fields.
    pub fn copied(&self) -> (r: LogEntry)
        ensures
            r == *self,
    {
        LogEntry {
            ts_ms: self.ts_ms,
            level: self.level.clone(),
            target: self.target.clone(),
            message: self.message.clone(),
        }
    }
}

/// The last `cap` events, oldest first.
pub struct LogBuffer {
    entries: VecDeque<LogEntry>,
    cap: usize,
}

/// The last `cap` of `s`, or all of it when it is shorter.
pub open spec fn last_n(s: Seq<LogEntry>, cap: nat) -> Seq<LogEntry> {
    if s.len() <= cap {
        s
    } else {
        s.skip(s.len() - cap)
    }
}

impl LogBuffer {
    pub closed spec fn entries(&self) -> Seq<LogEntry> {
        self.entries@
    }

    pub closed spec fn capacity(&self) -> nat {
        self.cap as nat
    }

    /// Never empty of room, never over it.
    pub open spec fn wf(&self) -> bool {
        self.capacity() >= 1 && self.entries().len() <= self.capacity()
    }

    /// An empty buffer for the last `cap` events. A capacity of 0 is taken
    /// as 1: the buffer always has room for the latest event.
    pub fn new(cap: usize) -> (r: LogBuffer)
        ensures
            r.wf(),
            r.entries() == Seq::<LogEntry>::empty(),
            r.capacity() == if cap == 0 {
                1
            } else {
                cap as nat
            },
    {
        let cap = if cap == 0 {
            1
        } else {
            cap
        };
        LogBuffer { entries: VecDeque::new(), cap }
    }

    /// The buffered events, oldest first.
    pub fn snapshot(&self) -> (r: Vec<LogEntry>)
        ensures
            r@ == self.entries(),
    {
        let mut out: Vec<LogEntry> = Vec::new();
        let mut i: usize = 0;
        while i < self.entries.len()
            invariant
                i <= self.entries@.len(),
                out@ == self.entries@.take(i as int),
            decreases self.entries@.len() - i,
        {
            out.push(self.entries[i].copied());
            assert(self.entries@.take(i + 1) =~= self.entries@.take(i as int).push(self.entries@[i as int]));
            i = i + 1;
        }
        assert(self.entries@.take(self.entries@.len() as int) =~= self.entries@);
        out
    }

    /// Adds `entry` as the newest event, dropping the oldest ones past the
    /// capacity.
    pub fn push(&mut self, entry: LogEntry)
        requires
            old(self).wf(),
        ensures
            final(self).wf(),
            final(self).capacity() == old(self).capacity(),
            final(self).entries() == last_n(old(self).entries().push(entry), old(self).capacity()),
    {
        let ghost start = self.entries@;
        let ghost cap = self.cap;
        while self.entries.len() >= self.cap
            invariant
                self.cap == cap,
                cap >= 1,
                start.len() <= cap,
                start.len() == cap ==> self.entries@.len() >= cap - 1,
                start.len() < cap ==> self.entries@.len() == start.len(),
                self.entries@.len() <= start.len(),
                self.entries@ == start.skip(start.len() - self.entries@.len()),
            decreases self.entries@.len(),
        {
            let _ = self.entries.pop_front();
            assert(self.entries@ =~= start.skip(start.len() - self.entries@.len()));
        }
        self.entries.push_back(entry);
        assert(self.entries@ =~= last_n(start.push(entry), self.cap as nat));
    }
}

/// However many events arrive, the buffer holds the latest ones, never more
/// than its capacity: pushing keeps exactly the last `cap` of everything
/// pushed, oldest first.
pub proof fn lemma_keeps_the_latest(s: Seq<LogEntry>, e: LogEntry, cap: nat)
    requires
        cap >= 1,
    ensures
        last_n(last_n(s, cap).push(e), cap) == last_n(s.push(e), cap),
        last_n(s.push(e), cap).len() <= cap,
        last_n(s.push(e), cap).last() == e,
{
    assert(last_n(last_n(s, cap).push(e), cap) =~= last_n(s.push(e), cap));
}

/// What a buffer holding `held` holds after `pushes`, one
/// [`LogBuffer::push`] at a time.
pub open spec fn after_pushes(held: Seq<LogEntry>, pushes: Seq<LogEntry>, cap: nat) -> Seq<LogEntry>
    decreases pushes.len(),
{
    if pushes.len() == 0 {
        held
    } else {
        after_pushes(last_n(held.push(pushes[0]), cap), pushes.drop_first(), cap)
    }
}

proof fn lemma_after_pushes_is_last_n(s: Seq<LogEntry>, pushes: Seq<LogEntry>, cap: nat)
    requires
        cap >= 1,
    ensures
        after_pushes(last_n(s, cap), pushes, cap) == last_n(s + pushes, cap),
    decreases pushes.len(),
{
    if pushes.len() == 0 {
        assert(s + pushes =~= s);
    } else {
        lemma_keeps_the_latest(s, pushes[0], cap);
        lemma_after_pushes_is_last_n(s.push(pushes[0]), pushes.drop_first(), cap);
        assert(s.push(pushes[0]) + pushes.drop_first() =~= s + pushes);
    }
}

/// Whatever sequence of events is pushed into a buffer, it then holds
/// exactly the last `cap` of everything it was given, oldest first; a new
/// buffer holds exactly the last `cap` events pushed.
pub proof fn lemma_holds_the_last_events(s: Seq<LogEntry>, pushes: Seq<LogEntry>, cap: nat)
    requires
        cap >= 1,
    ensures
        after_pushes(last_n(s, cap), pushes, cap) == last_n(s + pushes, cap),
        after_pushes(Seq::empty(), pushes, cap) == last_n(pushes, cap),
{
    lemma_after_pushes_is_last_n(s, pushes, cap);
    lemma_after_pushes_is_last_n(Seq::empty(), pushes, cap);
    assert(last_n(Seq::<LogEntry>::empty(), cap) =~= Seq::<LogEntry>::empty());
    assert(Seq::<LogEntry>::empty() + pushes =~= pushes);
}

/// `line` with one more field of an event appended: the event's `message`
/// field as it is, any other as `name=value`, separated by single spaces.
pub open spec fn with_field(line: Seq<char>, name: Seq<char>, value: Seq<char>) -> Seq<char> {
    let sep = if line.len() > 0 {
        seq![' ']
    } else {
        Seq::empty()
    };
    if name == "message"@ {
        line + sep + value
    } else {
        line + sep + name + seq!['='] + value
    }
}

/// Appends one field of an event to the line being built for it.
pub fn append_field(line: &mut String, name: &str, value: &str)
    ensures
        final(line)@ == with_field(old(line)@, name@, value@),
{
    let ghost start = line@;
    if !line.as_str().is_empty() {
        push_char(line, ' ');
    }
    proof {
        reveal_strlit("message");
    }
    if crate::text::str_eq(name, "message") {
        push_str(line, value);
    } else {
        push_str(line, name);
        push_char(line, '=');
        push_str(line, value);
    }
    assert(line@ =~= with_field(start, name@, value@));
}

} // verus!
