use vstd::prelude::*;

verus! {

/// Relies on `String::push_str`: it appends the characters of `string` to the
/// end of `s`.
pub assume_specification[ String::push_str ](s: &mut String, string: &str)
    ensures
        final(s)@ == old(s)@ + string@,
;

/// The number of events a node keeps in its log.
pub const LOG_CAPACITY: usize = 20;

/// A structural event recorded in a node's log, with the peer's label as it
/// was when the event happened.
#[derive(Debug)]
pub enum DagreEvent {
    /// The node was added to the graph.
    Add(String),
    /// An edge from the labelled node to this one was added.
    From(String),
    /// An edge from this node to the labelled one was added.
    To(String),
    /// The labelled neighbour was evicted.
    Remove(String),
    /// An edge from this node to the labelled one was removed.
    UnlinkInc(String),
    /// An edge from the labelled node to this one was removed.
    UnlinkOut(String),
}

/// The line that describes an event, newline included.
pub open spec fn event_text(e: DagreEvent) -> Seq<char> {
    match e {
        DagreEvent::Add(l) => "[+]   "@ + l@ + "\n"@,
        DagreEvent::From(l) => l@ + " -> *"@ + "\n"@,
        DagreEvent::To(l) => "*  -> "@ + l@ + "\n"@,
        DagreEvent::Remove(l) => "[-]   "@ + l@ + "\n"@,
        DagreEvent::UnlinkInc(l) => "* -/-> "@ + l@ + "\n"@,
        DagreEvent::UnlinkOut(l) => l@ + " -/-> *"@ + "\n"@,
    }
}

/// The text of a sequence of events: their lines, in the order of the sequence.
pub open spec fn log_text(s: Seq<DagreEvent>) -> Seq<char>
    decreases s.len(),
{
    if s.len() == 0 {
        Seq::empty()
    } else {
        event_text(s[0]) + log_text(s.drop_first())
    }
}

/// The entries of a log, most recent first, after `e` is recorded in a log
/// that held `s` and keeps at most `cap` entries: `e` comes first and the
/// oldest entries beyond the capacity are dropped.
pub open spec fn logged(s: Seq<DagreEvent>, e: DagreEvent, cap: nat) -> Seq<DagreEvent> {
    let t = seq![e] + s;
    if t.len() <= cap {
        t
    } else {
        t.take(cap as int)
    }
}

impl DagreEvent {
    /// The line that describes this event, newline included.
    pub fn to_string(&self) -> (r: String)
        ensures
            r@ == event_text(*self),
    {
        let mut s = String::new();
        match self {
            DagreEvent::Add(l) => {
                s.push_str("[+]   ");
                s.push_str(l.as_str());
            },
            DagreEvent::From(l) => {
                s.push_str(l.as_str());
                s.push_str(" -> *");
            },
            DagreEvent::To(l) => {
                s.push_str("*  -> ");
                s.push_str(l.as_str());
            },
            DagreEvent::Remove(l) => {
                s.push_str("[-]   ");
                s.push_str(l.as_str());
            },
            DagreEvent::UnlinkInc(l) => {
                s.push_str("* -/-> ");
                s.push_str(l.as_str());
            },
            DagreEvent::UnlinkOut(l) => {
                s.push_str(l.as_str());
                s.push_str(" -/-> *");
            },
        }
        s.push_str("\n");
        s
    }
}

/// Something that structural events can be written to.
pub trait EventLogWriter {
    fn write(&mut self, event: DagreEvent);
}

/// A bounded log of events, most recent first. Once it is full, recording a
/// new event drops the oldest one.
pub struct DagreRingLog {
    log_buf: Vec<DagreEvent>,
    capacity: usize,
}

impl View for DagreRingLog {
    type V = Seq<DagreEvent>;

    closed spec fn view(&self) -> Seq<DagreEvent> {
        self.log_buf@
    }
}

impl DagreRingLog {
    /// The most entries this log keeps.
    pub closed spec fn spec_capacity(&self) -> nat {
        self.capacity as nat
    }

    /// An empty log that keeps the default number of entries.
    pub fn new() -> (r: Self)
        ensures
            r@ == Seq::<DagreEvent>::empty(),
            r.spec_capacity() == LOG_CAPACITY,
    {
        DagreRingLog::with_capacity(LOG_CAPACITY)
    }

    /// An empty log that keeps at most `capacity` entries.
    pub fn with_capacity(capacity: usize) -> (r: Self)
        ensures
            r@ == Seq::<DagreEvent>::empty(),
            r.spec_capacity() == capacity,
    {
        DagreRingLog { log_buf: Vec::new(), capacity }
    }

    /// The most entries this log keeps.
    pub fn capacity(&self) -> (r: usize)
        ensures
            r == self.spec_capacity(),
    {
        self.capacity
    }

    /// The entries, most recent first.
    pub fn entries(&self) -> (r: &Vec<DagreEvent>)
        ensures
            r@ == self@,
    {
        &self.log_buf
    }

    /// Records `event` as the most recent entry, dropping the oldest entry
    /// when the log is full.
    pub fn record(&mut self, event: DagreEvent)
        ensures
            final(self)@ == logged(old(self)@, event, old(self).spec_capacity()),
            final(self).spec_capacity() == old(self).spec_capacity(),
    {
        self.log_buf.insert(0, event);
        if self.log_buf.len() > self.capacity {
            self.log_buf.truncate(self.capacity);
        }
        proof {
            let t = seq![event] + old(self)@;
            assert(old(self)@.insert(0, event) =~= t);
        }
    }

    /// The text of the log: one line per entry, most recent first.
    pub fn dump(&self) -> (r: String)
        ensures
            r@ == log_text(self@),
    {
        let mut out = String::new();
        let n = self.log_buf.len();
        let mut i: usize = 0;
        while i < n
            invariant
                n == self@.len(),
                i <= n,
                out@ == log_text(self@.take(i as int)),
            decreases n - i,
        {
            let line = self.log_buf[i].to_string();
            proof {
                lemma_log_text_append(self@.take(i as int), seq![self@[i as int]]);
                assert(self@.take(i as int) + seq![self@[i as int]] =~= self@.take(i + 1));
                assert(seq![self@[i as int]].drop_first() =~= Seq::<DagreEvent>::empty());
                assert(log_text(Seq::<DagreEvent>::empty()) =~= Seq::<char>::empty());
                assert(log_text(seq![self@[i as int]]) =~= event_text(self@[i as int]));
            }
            out.push_str(line.as_str());
            i = i + 1;
        }
        proof {
            assert(self@.take(n as int) =~= self@);
        }
        out
    }
}

impl Default for DagreRingLog {
    fn default() -> (r: Self)
        ensures
            r@ == Seq::<DagreEvent>::empty(),
            r.spec_capacity() == LOG_CAPACITY,
    {
        DagreRingLog::new()
    }
}

impl EventLogWriter for DagreRingLog {
    fn write(&mut self, event: DagreEvent) {
        self.record(event)
    }
}

/// A writer that drops every event.
pub struct NopEventLogWriter();

impl EventLogWriter for NopEventLogWriter {
    fn write(&mut self, event: DagreEvent) {
    }
}

/// The text of two sequences of events one after the other is the text of
/// the first followed by the text of the second.
proof fn lemma_log_text_append(a: Seq<DagreEvent>, b: Seq<DagreEvent>)
    ensures
        log_text(a + b) == log_text(a) + log_text(b),
    decreases a.len(),
{
    if a.len() == 0 {
        assert(a + b =~= b);
        assert(log_text(a) + log_text(b) =~= log_text(b));
    } else {
        lemma_log_text_append(a.drop_first(), b);
        assert((a + b).drop_first() =~= a.drop_first() + b);
        assert(event_text(a[0]) + (log_text(a.drop_first()) + log_text(b)) =~= (event_text(a[0])
            + log_text(a.drop_first())) + log_text(b));
    }
}

/// A log's text lists the most recent event first: after `e` is recorded in
/// a log that held `s`, the text is the line of `e` followed by the text of
/// the earlier entries that the log kept, in their former order.
pub proof fn lemma_newest_first(s: Seq<DagreEvent>, e: DagreEvent, cap: nat)
    requires
        cap > 0,
    ensures
        log_text(logged(s, e, cap)) == event_text(e) + log_text(
            s.take(if s.len() + 1 <= cap { s.len() as int } else { cap - 1 }),
        ),
{
    let kept = s.take(if s.len() + 1 <= cap { s.len() as int } else { cap - 1 });
    assert(logged(s, e, cap) =~= seq![e] + kept);
    assert((seq![e] + kept).drop_first() =~= kept);
}

} // verus!
