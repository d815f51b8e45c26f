//! Log records: an in-memory ring (Info and up, shown by the `L` log viewer)
//! and the lines of a log file, which also gets Debug.

use vstd::prelude::*;

use crate::text;
use crate::text::decimal;

verus! {

/// Records kept for the log viewer; older ones are dropped.
pub const RING_CAP: usize = 2000;

/// How much a record matters; the first matters most.
#[derive(Clone, Copy, Debug, PartialEq, Eq, Structural)]
pub enum Level {
    Error,
    Warn,
    Info,
    Debug,
    Trace,
}

impl Level {
    /// Whether the log viewer shows records of this level.
    pub open spec fn shown(self) -> bool {
        self is Error || self is Warn || self is Info
    }

    /// The level's name, five columns wide.
    pub open spec fn name(self) -> Seq<char> {
        match self {
            Level::Error => "ERROR"@,
            Level::Warn => "WARN "@,
            Level::Info => "INFO "@,
            Level::Debug => "DEBUG"@,
            Level::Trace => "TRACE"@,
        }
    }

    fn text(self) -> (r: &'static str)
        ensures
            r@ == self.name(),
    {
        match self {
            Level::Error => "ERROR",
            Level::Warn => "WARN ",
            Level::Info => "INFO ",
            Level::Debug => "DEBUG",
            Level::Trace => "TRACE",
        }
    }

    fn is_shown(self) -> (r: bool)
        ensures
            r == self.shown(),
    {
        matches!(self, Level::Error | Level::Warn | Level::Info)
    }
}

/// Whether a record of this level goes anywhere.
pub fn enabled(level: Level, to_file: bool) -> (r: bool)
    ensures
        r == (level.shown() || to_file),
{
    level.is_shown() || to_file
}

/// A record.
pub struct Entry {
    /// Milliseconds since startup.
    pub millis: u64,
    pub level: Level,
    pub target: String,
    pub msg: String,
}

pub struct EntryView {
    pub millis: u64,
    pub level: Level,
    pub target: Seq<char>,
    pub msg: Seq<char>,
}

impl View for Entry {
    type V = EntryView;

    open spec fn view(&self) -> EntryView {
        EntryView {
            millis: self.millis,
            level: self.level,
            target: self.target@,
            msg: self.msg@,
        }
    }
}

/// A time in milliseconds as seconds with three decimals.
pub open spec fn seconds(millis: u64) -> Seq<char> {
    let rest = (millis % 1000) as int;
    decimal((millis / 1000) as int) + "."@ + (if rest < 10 {
        "00"@
    } else if rest < 100 {
        "0"@
    } else {
        ""@
    }) + decimal(rest)
}

fn seconds_text(millis: u64) -> (r: String)
    ensures
        r@ == seconds(millis),
{
    let rest = millis % 1000;
    let mut s = text::decimal_string(millis / 1000);
    s.append(".");
    s.append(if rest < 10 {
        "00"
    } else if rest < 100 {
        "0"
    } else {
        ""
    });
    s.append(text::decimal_string(rest).as_str());
    s
}

/// A record's line: time, level, target and message.
pub open spec fn line_of(time: Seq<char>, e: EntryView) -> Seq<char> {
    time + " "@ + e.level.name() + " "@ + e.target + ": "@ + e.msg
}

impl Entry {
    fn after_time(&self, time: String) -> (r: String)
        ensures
            r@ == line_of(time@, self@),
    {
        let mut s = time;
        s.append(" ");
        s.append(self.level.text());
        s.append(" ");
        s.append(self.target.as_str());
        s.append(": ");
        s.append(self.msg.as_str());
        s
    }

    /// The record's line in a log file, with the time of day in milliseconds
    /// since the epoch.
    pub fn file_line(&self, epoch_millis: u64) -> (r: String)
        ensures
            r@ == line_of(seconds(epoch_millis), self@),
    {
        self.after_time(seconds_text(epoch_millis))
    }

    /// The record's line in the log viewer, with the time since startup.
    pub fn viewer_line(&self) -> (r: String)
        ensures
            r@ == line_of(seconds(self@.millis), self@),
    {
        self.after_time(seconds_text(self.millis))
    }
}

/// The newest records, oldest first.
pub struct Ring {
    pub entries: Vec<Entry>,
}

impl View for Ring {
    type V = Seq<EntryView>;

    open spec fn view(&self) -> Seq<EntryView> {
        text::views(self.entries@)
    }
}

/// A ring after a record.
pub open spec fn logged(ring: Seq<EntryView>, e: EntryView) -> Seq<EntryView> {
    if !e.level.shown() {
        ring
    } else if ring.len() >= RING_CAP {
        ring.skip(1).push(e)
    } else {
        ring.push(e)
    }
}

impl Ring {
    /// The ring holds no more than its cap.
    pub open spec fn wf(self) -> bool {
        self@.len() <= RING_CAP
    }

    pub fn new() -> (r: Ring)
        ensures
            r@ == Seq::<EntryView>::empty(),
            r.wf(),
    {
        let r = Ring { entries: Vec::new() };
        assert(r@ =~= Seq::<EntryView>::empty());
        r
    }

    /// Record an entry that the viewer shows; the oldest goes when the ring
    /// is full.
    pub fn log(&mut self, e: Entry)
        requires
            old(self).wf(),
        ensures
            final(self)@ == logged(old(self)@, e@),
            final(self).wf(),
    {
        if e.level.is_shown() {
            let ghost es = self@;
            if self.entries.len() == RING_CAP {
                self.entries.remove(0);
                assert(self@ =~= es.skip(1));
            }
            let ghost es = self@;
            self.entries.push(e);
            assert(self@ =~= es.push(e@));
        }
    }

    /// The entries, oldest first, without copying them out.
    pub fn with_entries(&self) -> (r: &Vec<Entry>)
        ensures
            text::views(r@) == self@,
    {
        &self.entries
    }
}

/// A record that the viewer shows is the newest in the ring, and everything
/// before it was there.
pub proof fn law_the_ring_keeps_the_newest(ring: Seq<EntryView>, e: EntryView)
    requires
        ring.len() <= RING_CAP,
        e.level.shown(),
    ensures
        logged(ring, e).last() == e,
        logged(ring, e).len() == (if ring.len() < RING_CAP {
            ring.len() + 1
        } else {
            RING_CAP as nat
        }),
        logged(ring, e).drop_last() == ring.skip(
            ring.len() - (logged(ring, e).len() - 1),
        ),
{
    assert(logged(ring, e).drop_last() =~= ring.skip(ring.len() - (logged(ring, e).len() - 1)));
}

} // verus!
