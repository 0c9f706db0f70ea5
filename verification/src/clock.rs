//! The clock: the single owner of musical time.
//!
//! The clock keeps tempo in thousandths of a beat per minute and positions
//! in microbeats (millionths of a beat). While playing it advances the
//! beat counter exactly in proportion to elapsed wall-clock time and
//! tempo, carrying the sub-microbeat remainder so no time is lost to
//! rounding. The phase is the beat position within the repeating
//! synchronization quantum and is re-anchored, never jumped by a full
//! quantum or more, when the peer fabric asks for an alignment.

use vstd::prelude::*;

use crate::streams::Stream;
use crate::streams::StreamModel;
use crate::streams::Trigger;

verus! {

/// Microbeats in one beat.
pub const MICROBEATS_PER_BEAT: u64 = 1_000_000;

/// The default synchronization quantum: four beats, in microbeats.
pub const DEFAULT_QUANTUM: u64 = 4_000_000;

/// The default tempo: 120 beats per minute, in milli-BPM.
pub const DEFAULT_TEMPO_MBPM: u64 = 120_000;

/// Divisor turning `elapsed_microseconds * tempo_mbpm` into microbeats:
/// one minute is 60,000,000 microseconds and one milli-BPM is a
/// thousandth of a beat per minute, so a microsecond at `t` milli-BPM is
/// `t / 60_000` microbeats.
pub const TEMPO_TIME_DIVISOR: u64 = 60_000;

/// Whether the clock is advancing its beat counter.
#[derive(Debug, PartialEq, Eq, Clone, Copy, Structural)]
pub enum PlayState {
    Stopped,
    Playing,
}

/// Why a clock operation was refused.
#[derive(Debug, PartialEq, Eq, Clone, Copy)]
pub enum ClockError {
    /// `set_tempo` was handed a value that is not strictly positive.
    NonPositiveTempo,
}

/// A diagnostic snapshot of the clock, for the embedding to log.
#[derive(Debug, PartialEq, Clone, Copy)]
pub struct ClockSnapshot {
    pub tempo_mbpm: u64,
    pub beat: u64,
    pub phase: u64,
    pub quantum: u64,
    pub state: PlayState,
    pub peers: u32,
    pub subscriber_count: usize,
}

/// The snapshot [`Clock::report`] takes of a clock state.
pub open spec fn snapshot_m(c: ClockModel) -> ClockSnapshot {
    ClockSnapshot {
        tempo_mbpm: c.tempo_mbpm,
        beat: c.beat,
        phase: c.phase,
        quantum: c.quantum,
        state: c.state,
        peers: c.peers,
        subscriber_count: c.subscribers.len() as usize,
    }
}

/// The mathematical shape of a [`Clock`].
pub ghost struct ClockModel {
    pub tempo_mbpm: u64,
    pub beat: u64,
    /// Sub-microbeat remainder, in units of `elapsed_us * tempo_mbpm`,
    /// always below [`TEMPO_TIME_DIVISOR`].
    pub rem: u64,
    pub phase: u64,
    pub quantum: u64,
    pub state: PlayState,
    pub peers: u32,
    pub subscribers: Seq<StreamModel>,
}

impl ClockModel {
    /// The clock invariant: positive tempo, positive quantum, the phase
    /// is the beat position within the quantum, the remainder has not
    /// grown to a whole microbeat, and every subscriber is well formed.
    pub open spec fn wf(self) -> bool {
        &&& self.tempo_mbpm > 0
        &&& self.quantum > 0
        &&& self.phase == self.beat % self.quantum
        &&& self.rem < TEMPO_TIME_DIVISOR
        &&& forall|i: int|
            0 <= i < self.subscribers.len() ==> (#[trigger] self.subscribers[i]).wf()
    }
}

/// What `set_tempo` does: a strictly positive value replaces the tempo,
/// any other value leaves the clock untouched.
pub open spec fn set_tempo_m(c: ClockModel, mbpm: i64) -> ClockModel {
    if mbpm > 0 {
        ClockModel { tempo_mbpm: mbpm as u64, ..c }
    } else {
        c
    }
}

/// What `play` does: the clock starts advancing; nothing else changes.
pub open spec fn play_m(c: ClockModel) -> ClockModel {
    ClockModel { state: PlayState::Playing, ..c }
}

/// What a peer-count report from the fabric does: only the count changes,
/// so a peer joining or leaving never disturbs the local timeline.
pub open spec fn set_peers_m(c: ClockModel, n: u32) -> ClockModel {
    ClockModel { peers: n, ..c }
}

/// What `add_subscriber` does: the stream is appended, keeping
/// subscription order; nothing else changes.
pub open spec fn add_subscriber_m(c: ClockModel, s: StreamModel) -> ClockModel {
    ClockModel { subscribers: c.subscribers.push(s), ..c }
}

/// What `advance` does while playing: the product of elapsed microseconds
/// and tempo is added to the carried remainder, whole microbeats move the
/// beat counter, the rest is carried, and the phase follows the beat.
/// Stopped, the clock does not move at all.
pub open spec fn advance_m(c: ClockModel, elapsed_us: u64) -> ClockModel {
    if c.state == PlayState::Stopped {
        c
    } else {
        let total = c.rem + elapsed_us * c.tempo_mbpm;
        let nb = (c.beat + total / (TEMPO_TIME_DIVISOR as int)) as u64;
        ClockModel {
            beat: nb,
            rem: (total % (TEMPO_TIME_DIVISOR as int)) as u64,
            phase: nb % c.quantum,
            ..c
        }
    }
}

/// True when advancing by `elapsed_us` keeps the beat counter inside the
/// machine word; a caller checks this before asking for an advance.
pub open spec fn advance_fits(c: ClockModel, elapsed_us: u64) -> bool {
    c.state == PlayState::Playing ==> c.beat + (c.rem + elapsed_us * c.tempo_mbpm) / (
    TEMPO_TIME_DIVISOR as int) <= u64::MAX
}

/// What `sync` does: the beat counter moves forward by less than one
/// quantum, to the next position whose phase is the fabric's phase.
pub open spec fn sync_m(c: ClockModel, fabric_phase: u64) -> ClockModel {
    let adj = if fabric_phase >= c.phase {
        fabric_phase - c.phase
    } else {
        c.quantum - c.phase + fabric_phase
    };
    ClockModel { beat: (c.beat + adj) as u64, phase: fabric_phase, ..c }
}

/// The triggers of one tick fan-out, subscriber by subscriber in
/// subscription order.
pub open spec fn fanout_triggers(subs: Seq<StreamModel>, beat: u64, quantum: u64) -> Seq<Trigger>
    decreases subs.len(),
{
    if subs.len() == 0 {
        Seq::empty()
    } else {
        fanout_triggers(subs.drop_last(), beat, quantum) + crate::streams::stream_triggers(
            subs.last(),
            beat,
            quantum,
        )
    }
}

/// The subscribers after one tick fan-out: each has seen the phase of
/// this tick; patterns and order are untouched.
pub open spec fn ticked_subscribers(subs: Seq<StreamModel>, beat: u64, quantum: u64) -> Seq<
    StreamModel,
> {
    subs.map_values(
        |s: StreamModel| StreamModel { last_phase: Some(beat % quantum), ..s },
    )
}

/// The authoritative owner of musical time: tempo, beat counter, phase,
/// play state, peer count and the subscribed streams.
#[derive(Debug, Clone)]
pub struct Clock {
    pub tempo_mbpm: u64,
    pub beat: u64,
    pub rem: u64,
    pub phase: u64,
    pub quantum: u64,
    pub state: PlayState,
    pub peers: u32,
    pub subscribers: Vec<Stream>,
}

impl View for Clock {
    type V = ClockModel;

    open spec fn view(&self) -> ClockModel {
        ClockModel {
            tempo_mbpm: self.tempo_mbpm,
            beat: self.beat,
            rem: self.rem,
            phase: self.phase,
            quantum: self.quantum,
            state: self.state,
            peers: self.peers,
            subscribers: self.subscribers@.map_values(|s: Stream| s@),
        }
    }
}

impl Clock {
    /// A stopped clock at beat zero with no peers and no subscribers.
    pub fn new(tempo_mbpm: u64, quantum: u64) -> (c: Clock)
        requires
            tempo_mbpm > 0,
            quantum > 0,
        ensures
            c@ == (ClockModel {
                tempo_mbpm,
                beat: 0,
                rem: 0,
                phase: 0,
                quantum,
                state: PlayState::Stopped,
                peers: 0,
                subscribers: Seq::<StreamModel>::empty(),
            }),
            c@.wf(),
    {
        let c = Clock {
            tempo_mbpm,
            beat: 0,
            rem: 0,
            phase: 0,
            quantum,
            state: PlayState::Stopped,
            peers: 0,
            subscribers: Vec::new(),
        };
        proof {
            assert(c.subscribers@.map_values(|s: Stream| s@) =~= Seq::<StreamModel>::empty());
        }
        c
    }

    /// The current tempo, in milli-BPM.
    pub fn get_tempo(&self) -> (t: u64)
        ensures
            t == self@.tempo_mbpm,
    {
        self.tempo_mbpm
    }

    /// The current beat position, in microbeats.
    pub fn beats(&self) -> (b: u64)
        ensures
            b == self@.beat,
    {
        self.beat
    }

    /// The current phase within the quantum, in microbeats.
    pub fn get_phase(&self) -> (p: u64)
        ensures
            p == self@.phase,
    {
        self.phase
    }

    /// The number of peer clocks currently linked on the fabric.
    pub fn peers(&self) -> (n: u32)
        ensures
            n == self@.peers,
    {
        self.peers
    }

    /// How many streams are subscribed.
    pub fn subscribers(&self) -> (n: usize)
        ensures
            n == self@.subscribers.len(),
    {
        self.subscribers.len()
    }

    /// A diagnostic snapshot for the embedding to log.
    pub fn report(&self) -> (s: ClockSnapshot)
        ensures
            s == snapshot_m(self@),
    {
        ClockSnapshot {
            tempo_mbpm: self.tempo_mbpm,
            beat: self.beat,
            phase: self.phase,
            quantum: self.quantum,
            state: self.state,
            peers: self.peers,
            subscriber_count: self.subscribers.len(),
        }
    }

    /// Replaces the tempo with a strictly positive value; refuses any
    /// other value and then changes nothing.
    pub fn set_tempo(&mut self, mbpm: i64) -> (r: Result<(), ClockError>)
        ensures
            final(self)@ == set_tempo_m(old(self)@, mbpm),
            mbpm > 0 ==> r == Ok::<(), ClockError>(()),
            mbpm <= 0 ==> r == Err::<(), ClockError>(ClockError::NonPositiveTempo)
                && final(self)@ == old(self)@,
            old(self)@.wf() ==> final(self)@.wf(),
    {
        if mbpm > 0 {
            self.tempo_mbpm = mbpm as u64;
            Ok(())
        } else {
            Err(ClockError::NonPositiveTempo)
        }
    }

    /// Starts beat advancement; everything else is untouched.
    pub fn play(&mut self)
        ensures
            final(self)@ == play_m(old(self)@),
            old(self)@.wf() ==> final(self)@.wf(),
    {
        self.state = PlayState::Playing;
    }

    /// Records the peer count the fabric reported; the local timeline is
    /// untouched, so a peer joining or leaving never disturbs playback.
    pub fn set_peers(&mut self, n: u32)
        ensures
            final(self)@ == set_peers_m(old(self)@, n),
            old(self)@.wf() ==> final(self)@.wf(),
    {
        self.peers = n;
    }

    /// Registers a stream for tick notifications, after all earlier ones.
    pub fn add_subscriber(&mut self, stream: Stream)
        requires
            stream@.wf(),
        ensures
            final(self)@ == add_subscriber_m(old(self)@, stream@),
            old(self)@.wf() ==> final(self)@.wf(),
    {
        let ghost old_subs = self@.subscribers;
        self.subscribers.push(stream);
        proof {
            assert(self.subscribers@.map_values(|s: Stream| s@) =~= old_subs.push(stream@));
        }
    }

    /// Advances musical time by `elapsed_us` microseconds of wall-clock
    /// time. Stopped, the clock does not move; playing, the beat counter
    /// gains exactly `(rem + elapsed_us * tempo) / 60_000` microbeats and
    /// the sub-microbeat remainder is carried, so over any run of calls
    /// the advancement is exactly proportional to elapsed time and tempo.
    pub fn advance(&mut self, elapsed_us: u64)
        requires
            old(self)@.wf(),
            advance_fits(old(self)@, elapsed_us),
        ensures
            final(self)@ == advance_m(old(self)@, elapsed_us),
            final(self)@.wf(),
    {
        if matches!(self.state, PlayState::Stopped) {
            return ;
        }
        proof {
            assert((elapsed_us as int) * (self.tempo_mbpm as int) <= (u64::MAX as int) * (
            u64::MAX as int)) by (nonlinear_arith)
                requires
                    elapsed_us as int <= u64::MAX as int,
                    self.tempo_mbpm as int <= u64::MAX as int,
                    0 <= elapsed_us as int,
                    0 <= self.tempo_mbpm as int,
            ;
        }
        let total: u128 = (self.rem as u128) + (elapsed_us as u128) * (self.tempo_mbpm as u128);
        let d: u128 = total / (TEMPO_TIME_DIVISOR as u128);
        let r: u64 = (total % (TEMPO_TIME_DIVISOR as u128)) as u64;
        self.beat = self.beat + (d as u64);
        self.rem = r;
        self.phase = self.beat % self.quantum;
    }

    /// Re-anchors the phase to the fabric's phase: the beat counter moves
    /// forward by less than one quantum, to the next position whose phase
    /// matches. Play state, tempo and subscribers are untouched.
    pub fn sync(&mut self, fabric_phase: u64)
        requires
            old(self)@.wf(),
            fabric_phase < old(self)@.quantum,
            old(self)@.beat + old(self)@.quantum <= u64::MAX,
        ensures
            final(self)@ == sync_m(old(self)@, fabric_phase),
            final(self)@.wf(),
            final(self)@.phase == fabric_phase,
            old(self)@.beat <= final(self)@.beat < old(self)@.beat + old(self)@.quantum,
    {
        proof {
            vstd::arithmetic::div_mod::lemma_fundamental_div_mod(
                self.beat as int,
                self.quantum as int,
            );
        }
        let adj: u64 = if fabric_phase >= self.phase {
            fabric_phase - self.phase
        } else {
            self.quantum - self.phase + fabric_phase
        };
        let ghost k = self.beat as int / self.quantum as int;
        self.beat = self.beat + adj;
        self.phase = fabric_phase;
        proof {
            let q = self@.quantum as int;
            if fabric_phase >= old(self)@.phase {
                assert(self@.beat as int == q * k + fabric_phase as int);
            } else {
                assert(self@.beat as int == q * (k + 1) + fabric_phase as int) by {
                    assert(q * (k + 1) == q * k + q) by (nonlinear_arith);
                };
            }
            vstd::arithmetic::div_mod::lemma_mod_multiples_vanish(
                if fabric_phase >= old(self)@.phase {
                    k
                } else {
                    k + 1
                },
                fabric_phase as int,
                q,
            );
            vstd::arithmetic::div_mod::lemma_small_mod(fabric_phase as nat, self@.quantum as nat);
        }
    }

    /// One tick fan-out: every subscribed stream, in subscription order,
    /// is notified of the current beat and quantum; their triggers come
    /// back concatenated in that same order.
    pub fn tick_subscribers(&mut self) -> (triggers: Vec<Trigger>)
        requires
            old(self)@.wf(),
        ensures
            triggers@ == fanout_triggers(
                old(self)@.subscribers,
                old(self)@.beat,
                old(self)@.quantum,
            ),
            final(self)@ == (ClockModel {
                subscribers: ticked_subscribers(
                    old(self)@.subscribers,
                    old(self)@.beat,
                    old(self)@.quantum,
                ),
                ..old(self)@
            }),
            final(self)@.wf(),
    {
        let beat = self.beat;
        let quantum = self.quantum;
        let ghost subs0 = self@.subscribers;
        let mut out: Vec<Trigger> = Vec::new();
        let mut i: usize = 0;
        while i < self.subscribers.len()
            invariant
                quantum > 0,
                beat == old(self)@.beat,
                quantum == old(self)@.quantum,
                subs0 == old(self)@.subscribers,
                i <= self.subscribers.len(),
                self.subscribers@.len() == subs0.len(),
                self.tempo_mbpm == old(self).tempo_mbpm,
                self.beat == old(self).beat,
                self.rem == old(self).rem,
                self.phase == old(self).phase,
                self.quantum == old(self).quantum,
                self.state == old(self).state,
                self.peers == old(self).peers,
                forall|j: int|
                    0 <= j < i ==> (#[trigger] self.subscribers@[j])@ == (StreamModel {
                        last_phase: Some(beat % quantum),
                        ..subs0[j]
                    }),
                forall|j: int|
                    i <= j < subs0.len() ==> (#[trigger] self.subscribers@[j])@ == subs0[j],
                out@ == fanout_triggers(subs0.take(i as int), beat, quantum),
            decreases self.subscribers.len() - i,
        {
            let mut ts = self.subscribers[i].notify_tick(beat, quantum);
            out.append(&mut ts);
            proof {
                assert(subs0.take(i + 1).drop_last() =~= subs0.take(i as int));
                assert(subs0.take(i + 1).last() == subs0[i as int]);
            }
            i = i + 1;
        }
        proof {
            assert(subs0.take(subs0.len() as int) =~= subs0);
            assert(self.subscribers@.map_values(|s: Stream| s@) =~= ticked_subscribers(
                subs0,
                beat,
                quantum,
            ));
        }
        out
    }
}

/// While stopped, the beat counter does not advance, however much
/// wall-clock time has elapsed.
pub proof fn lemma_stopped_clock_holds_still(c: ClockModel, elapsed_us: u64)
    requires
        c.state == PlayState::Stopped,
    ensures
        advance_m(c, elapsed_us) == c,
{
}

/// While playing, advancement is exactly proportional to elapsed time and
/// tempo: counting the carried remainder, `advance` conserves
/// `60_000 * beat + rem`, adding precisely `elapsed_us * tempo` to it;
/// and as soon as a whole microbeat has accumulated, the beat counter
/// strictly increases.
pub proof fn lemma_playing_beat_proportional(c: ClockModel, elapsed_us: u64)
    requires
        c.wf(),
        c.state == PlayState::Playing,
        advance_fits(c, elapsed_us),
    ensures
        (TEMPO_TIME_DIVISOR as int) * advance_m(c, elapsed_us).beat + advance_m(
            c,
            elapsed_us,
        ).rem == (TEMPO_TIME_DIVISOR as int) * c.beat + c.rem + (elapsed_us as int) * (
        c.tempo_mbpm as int),
        advance_m(c, elapsed_us).beat >= c.beat,
        c.rem + elapsed_us * c.tempo_mbpm >= TEMPO_TIME_DIVISOR ==> advance_m(
            c,
            elapsed_us,
        ).beat > c.beat,
{
    let total = c.rem + elapsed_us * c.tempo_mbpm;
    let div = TEMPO_TIME_DIVISOR as int;
    vstd::arithmetic::div_mod::lemma_fundamental_div_mod(total, div);
    vstd::arithmetic::div_mod::lemma_mod_bound(total, div);
    assert(total / div >= 0) by {
        vstd::arithmetic::div_mod::lemma_div_pos_is_pos(total, div);
    };
    let nb = advance_m(c, elapsed_us).beat;
    assert(nb == c.beat + total / div);
    assert(div * nb == div * (c.beat + total / div));
    assert(div * (c.beat + total / div) == div * c.beat + div * (total / div))
        by (nonlinear_arith);
    if total >= div {
        assert(total / div >= 1) by {
            vstd::arithmetic::div_mod::lemma_div_is_ordered(div, total, div);
            vstd::arithmetic::div_mod::lemma_div_by_self(div);
        };
    }
}

/// Advancing a well-formed clock leaves it well formed.
pub proof fn lemma_advance_preserves_wf(c: ClockModel, elapsed_us: u64)
    requires
        c.wf(),
        advance_fits(c, elapsed_us),
    ensures
        advance_m(c, elapsed_us).wf(),
{
    if c.state == PlayState::Playing {
        let total = c.rem + elapsed_us * c.tempo_mbpm;
        let div = TEMPO_TIME_DIVISOR as int;
        vstd::arithmetic::mul::lemma_mul_nonnegative(elapsed_us as int, c.tempo_mbpm as int);
        vstd::arithmetic::div_mod::lemma_mod_bound(total, div);
        vstd::arithmetic::div_mod::lemma_div_pos_is_pos(total, div);
    }
}

/// Re-anchoring a well-formed clock leaves it well formed, and the beat
/// counter moves forward by less than one quantum.
pub proof fn lemma_sync_preserves_wf(c: ClockModel, fabric_phase: u64)
    requires
        c.wf(),
        fabric_phase < c.quantum,
        c.beat + c.quantum <= u64::MAX,
    ensures
        sync_m(c, fabric_phase).wf(),
        c.beat <= sync_m(c, fabric_phase).beat < c.beat + c.quantum,
{
    let q = c.quantum as int;
    vstd::arithmetic::div_mod::lemma_fundamental_div_mod(c.beat as int, q);
    vstd::arithmetic::div_mod::lemma_mod_bound(c.beat as int, q);
    let k = c.beat as int / q;
    let nb = sync_m(c, fabric_phase).beat;
    if fabric_phase >= c.phase {
        assert(nb as int == q * k + fabric_phase as int);
        vstd::arithmetic::div_mod::lemma_mod_multiples_vanish(k, fabric_phase as int, q);
    } else {
        assert(nb as int == q * (k + 1) + fabric_phase as int) by {
            assert(q * (k + 1) == q * k + q) by (nonlinear_arith);
        };
        vstd::arithmetic::div_mod::lemma_mod_multiples_vanish(k + 1, fabric_phase as int, q);
    }
    vstd::arithmetic::div_mod::lemma_small_mod(fabric_phase as nat, c.quantum as nat);
}

/// The phase never leaves `[0, quantum)`.
pub proof fn lemma_phase_in_range(c: ClockModel)
    requires
        c.wf(),
    ensures
        0 <= c.phase < c.quantum,
{
    vstd::arithmetic::div_mod::lemma_mod_bound(c.beat as int, c.quantum as int);
}

/// Setting a strictly positive tempo is read back exactly; a
/// non-positive one changes nothing.
pub proof fn lemma_tempo_round_trip(c: ClockModel, mbpm: i64)
    ensures
        mbpm > 0 ==> set_tempo_m(c, mbpm).tempo_mbpm == mbpm as u64,
        mbpm <= 0 ==> set_tempo_m(c, mbpm) == c,
{
}

/// A peer-count report is read back exactly by `peers()`, and it touches
/// nothing else: tempo, beat, phase, state and subscribers survive any
/// join or leave unchanged.
pub proof fn lemma_peer_report_is_isolated(c: ClockModel, n: u32)
    ensures
        set_peers_m(c, n).peers == n,
        set_peers_m(c, n) == (ClockModel { peers: n, ..c }),
{
}

} // verus!
