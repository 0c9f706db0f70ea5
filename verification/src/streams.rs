//! Events and pattern streams.
//!
//! An [`Event`] is an immutable timed unit: a trigger window `[begin, end]`
//! inside the repeating quantum, a type tag and an opaque payload. A
//! [`Stream`] holds an ordered pattern of events and, on each tick
//! notification, answers with the start/end triggers whose window boundary
//! was newly crossed since the previous tick. Positions are measured in
//! microbeats (millionths of a beat).

use vstd::prelude::*;

verus! {

/// The kind of timed unit an event stands for.
#[derive(Debug, PartialEq, Clone, Copy)]
pub enum BaseEventType {
    Tick,
    NoteOn,
    NoteOff,
    ControlChange,
    ProgramChange,
    PitchBend,
    Aftertouch,
    PolyAftertouch,
    SysEx,
    SysCommon,
    SysRealtime,
}

/// An immutable timed unit: a window within one quantum cycle, a type tag
/// and an opaque payload interpreted according to the tag.
#[derive(Debug, PartialEq, Clone)]
pub struct Event {
    pub begin: u64,
    pub end: u64,
    pub event_type: BaseEventType,
    pub event_data: Vec<u8>,
}

/// The mathematical shape of an [`Event`]: window bounds in microbeats,
/// type tag, payload bytes.
pub ghost struct EventModel {
    pub begin: u64,
    pub end: u64,
    pub event_type: BaseEventType,
    pub data: Seq<u8>,
}

impl EventModel {
    /// The event invariant: the window opens no later than it closes.
    pub open spec fn wf(self) -> bool {
        self.begin <= self.end
    }
}

impl View for Event {
    type V = EventModel;

    open spec fn view(&self) -> EventModel {
        EventModel {
            begin: self.begin,
            end: self.end,
            event_type: self.event_type,
            data: self.event_data@,
        }
    }
}

/// Whether a start or an end of an event fired.
#[derive(Debug, PartialEq, Eq, Clone, Copy)]
pub enum TriggerKind {
    Start,
    End,
}

/// One firing of an event boundary, as handed to the embedding output sink.
#[derive(Debug, PartialEq, Clone, Copy)]
pub struct Trigger {
    pub kind: TriggerKind,
    pub event_type: BaseEventType,
    pub beat: u64,
}

/// True when the position `p` (inside `[0, quantum)`) is newly reached by
/// moving the phase from `prev` to `cur`. On the very first tick every
/// position up to the observed phase counts as reached; afterwards exactly
/// the half-open phase interval `(prev, cur]` (wrapping at the quantum)
/// counts, so each position fires at most once per cycle.
pub open spec fn window_crossed(prev: Option<u64>, cur: u64, quantum: u64, p: u64) -> bool {
    match prev {
        Option::None => p <= cur,
        Option::Some(pv) => {
            if pv <= cur {
                pv < p && p <= cur
            } else {
                (pv < p && p < quantum) || p <= cur
            }
        },
    }
}

/// The triggers a single event contributes on one tick: its start when
/// `begin` is newly crossed, then its end when `end` is newly crossed.
pub open spec fn event_triggers(
    e: EventModel,
    prev: Option<u64>,
    cur: u64,
    quantum: u64,
    beat: u64,
) -> Seq<Trigger> {
    let starts = if window_crossed(prev, cur, quantum, e.begin) {
        seq![Trigger { kind: TriggerKind::Start, event_type: e.event_type, beat }]
    } else {
        Seq::empty()
    };
    let ends = if window_crossed(prev, cur, quantum, e.end) {
        seq![Trigger { kind: TriggerKind::End, event_type: e.event_type, beat }]
    } else {
        Seq::empty()
    };
    starts + ends
}

/// The triggers of a whole pattern, scanned in declaration order.
pub open spec fn pattern_triggers(
    pat: Seq<EventModel>,
    prev: Option<u64>,
    cur: u64,
    quantum: u64,
    beat: u64,
) -> Seq<Trigger>
    decreases pat.len(),
{
    if pat.len() == 0 {
        Seq::empty()
    } else {
        pattern_triggers(pat.drop_last(), prev, cur, quantum, beat) + event_triggers(
            pat.last(),
            prev,
            cur,
            quantum,
            beat,
        )
    }
}

/// The mathematical shape of a [`Stream`].
pub ghost struct StreamModel {
    pub name: Seq<char>,
    pub pattern: Seq<EventModel>,
    pub last_phase: Option<u64>,
}

impl StreamModel {
    /// The stream invariant: every event in the pattern is well formed.
    pub open spec fn wf(self) -> bool {
        forall|i: int| 0 <= i < self.pattern.len() ==> (#[trigger] self.pattern[i]).wf()
    }
}

/// What one tick notification does to a stream: the phase it saw is
/// remembered, the pattern itself is never reordered or changed.
pub open spec fn stream_triggers(s: StreamModel, beat: u64, quantum: u64) -> Seq<Trigger> {
    pattern_triggers(s.pattern, s.last_phase, beat % quantum, quantum, beat)
}

/// An ordered, append-only pattern of events together with the phase seen
/// on the previous tick notification.
#[derive(Debug, PartialEq, Clone)]
pub struct Stream {
    pub name: String,
    pub pattern: Vec<Event>,
    pub last_phase: Option<u64>,
}

impl View for Stream {
    type V = StreamModel;

    open spec fn view(&self) -> StreamModel {
        StreamModel {
            name: self.name@,
            pattern: self.pattern@.map_values(|e: Event| e@),
            last_phase: self.last_phase,
        }
    }
}

impl Event {
    /// Builds an event; the window must open no later than it closes.
    pub fn new(begin: u64, end: u64, event_type: BaseEventType, event_data: Vec<u8>) -> (e: Event)
        requires
            begin <= end,
        ensures
            e@ == (EventModel { begin, end, event_type, data: event_data@ }),
            e@.wf(),
    {
        Event { begin, end, event_type, event_data }
    }

    /// The trigger fired when this event's window opens.
    fn start_event(&self, beat: u64) -> (t: Trigger)
        ensures
            t == (Trigger { kind: TriggerKind::Start, event_type: self@.event_type, beat }),
    {
        Trigger { kind: TriggerKind::Start, event_type: self.event_type, beat }
    }

    /// The trigger fired when this event's window closes.
    fn end_event(&self, beat: u64) -> (t: Trigger)
        ensures
            t == (Trigger { kind: TriggerKind::End, event_type: self@.event_type, beat }),
    {
        Trigger { kind: TriggerKind::End, event_type: self.event_type, beat }
    }
}

/// Executable mirror of [`window_crossed`].
fn window_hit(prev: &Option<u64>, cur: u64, quantum: u64, p: u64) -> (r: bool)
    ensures
        r == window_crossed(*prev, cur, quantum, p),
{
    match prev {
        Option::None => p <= cur,
        Option::Some(pv) => {
            if *pv <= cur {
                *pv < p && p <= cur
            } else {
                (*pv < p && p < quantum) || p <= cur
            }
        },
    }
}

impl Stream {
    /// A stream that has no events yet and has seen no tick.
    pub fn new(name: String) -> (s: Stream)
        ensures
            s@ == (StreamModel {
                name: name@,
                pattern: Seq::<EventModel>::empty(),
                last_phase: Option::<u64>::None,
            }),
            s@.wf(),
    {
        let s = Stream { name, pattern: Vec::new(), last_phase: None };
        proof {
            assert(s.pattern@.map_values(|e: Event| e@) =~= Seq::<EventModel>::empty());
        }
        s
    }

    /// Appends an event; the scan order of earlier events is kept.
    pub fn add_event(&mut self, event: Event)
        requires
            event@.wf(),
        ensures
            final(self)@.pattern == old(self)@.pattern.push(event@),
            final(self)@.name == old(self)@.name,
            final(self)@.last_phase == old(self)@.last_phase,
            old(self)@.wf() ==> final(self)@.wf(),
    {
        self.pattern.push(event);
        proof {
            assert(self.pattern@.map_values(|e: Event| e@) =~= old(
                self,
            )@.pattern.push(event@));
        }
    }

    /// How many events the pattern holds.
    pub fn len(&self) -> (n: usize)
        ensures
            n == self@.pattern.len(),
    {
        self.pattern.len()
    }

    /// Receives one tick of the clock: scans the pattern in order and
    /// returns the triggers whose window boundary was newly crossed since
    /// the previous tick, then remembers the phase it saw.
    pub fn notify_tick(&mut self, beat: u64, quantum: u64) -> (triggers: Vec<Trigger>)
        requires
            quantum > 0,
        ensures
            triggers@ == stream_triggers(old(self)@, beat, quantum),
            final(self)@.pattern == old(self)@.pattern,
            final(self)@.name == old(self)@.name,
            final(self)@.last_phase == Some(beat % quantum),
    {
        let cur: u64 = beat % quantum;
        let prev: Option<u64> = self.last_phase;
        let ghost pat = self@.pattern;
        let mut out: Vec<Trigger> = Vec::new();
        let mut i: usize = 0;
        while i < self.pattern.len()
            invariant
                *self == *old(self),
                pat == self@.pattern,
                prev == old(self)@.last_phase,
                i <= self.pattern.len(),
                self.pattern@.len() == pat.len(),
                out@ == pattern_triggers(pat.take(i as int), prev, cur, quantum, beat),
            decreases self.pattern.len() - i,
        {
            let e = &self.pattern[i];
            proof {
                assert(pat[i as int] == e@);
            }
            if window_hit(&prev, cur, quantum, e.begin) {
                let t = e.start_event(beat);
                out.push(t);
            }
            if window_hit(&prev, cur, quantum, e.end) {
                let t = e.end_event(beat);
                out.push(t);
            }
            proof {
                assert(pat.take(i + 1).drop_last() =~= pat.take(i as int));
                assert(pat.take(i + 1).last() == pat[i as int]);
            }
            i = i + 1;
        }
        proof {
            assert(pat.take(pat.len() as int) =~= pat);
        }
        self.last_phase = Some(cur);
        out
    }
}

} // verus!
