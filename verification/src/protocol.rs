//! The command channel protocol.
//!
//! A controller reaches the clock only through messages: a request is a
//! closed tagged variant with typed payloads, parsed from the wire
//! envelope of a command name and string arguments. The clock's loop
//! executes requests one at a time, in the order they were issued, and
//! answers each with a typed reply or a typed error — an unknown command
//! name or a malformed argument is itself an answer, never a default
//! value and never an abort.

use vstd::prelude::*;

use crate::clock::Clock;
use crate::clock::ClockError;
use crate::clock::ClockModel;
use crate::clock::ClockSnapshot;
use crate::streams::Stream;
use crate::streams::StreamModel;

verus! {

/// The wire envelope: a command name and positional string arguments.
#[derive(Debug, PartialEq, Clone)]
pub struct ClockControlMessage {
    pub name: String,
    pub args: Vec<String>,
}

/// What this clock last observed of the peer synchronization fabric:
/// how many peers are linked and where the fabric's shared phase stands,
/// in microbeats.
#[derive(Debug, PartialEq, Eq, Clone, Copy)]
pub struct FabricSnapshot {
    pub peers: u32,
    pub phase: u64,
}

/// A typed answer to one request.
#[derive(Debug, PartialEq, Clone, Copy)]
pub enum Reply {
    /// The command was executed and has no value to return.
    Done,
    Tempo(u64),
    Beats(u64),
    Phase(u64),
    Peers(u32),
    Subscribers(u64),
    Snapshot(ClockSnapshot),
}

/// A parsed command: one closed variant per operation of the surface.
#[derive(Debug, PartialEq, Clone)]
pub enum Request {
    Report,
    GetTempo,
    Beats,
    GetPhase,
    SetTempo(i64),
    Play,
    Sync,
    Peers,
    AddSubscriber(String),
    Subscribers,
}

/// The mathematical shape of a [`Request`].
pub ghost enum RequestModel {
    Report,
    GetTempo,
    Beats,
    GetPhase,
    SetTempo(i64),
    Play,
    Sync,
    Peers,
    AddSubscriber(Seq<char>),
    Subscribers,
}

impl View for Request {
    type V = RequestModel;

    open spec fn view(&self) -> RequestModel {
        match self {
            Request::Report => RequestModel::Report,
            Request::GetTempo => RequestModel::GetTempo,
            Request::Beats => RequestModel::Beats,
            Request::GetPhase => RequestModel::GetPhase,
            Request::SetTempo(v) => RequestModel::SetTempo(*v),
            Request::Play => RequestModel::Play,
            Request::Sync => RequestModel::Sync,
            Request::Peers => RequestModel::Peers,
            Request::AddSubscriber(name) => RequestModel::AddSubscriber(name@),
            Request::Subscribers => RequestModel::Subscribers,
        }
    }
}

/// Why an envelope could not be turned into a [`Request`].
#[derive(Debug, PartialEq, Eq, Clone, Copy)]
pub enum ProtocolError {
    /// The command name is not part of the surface.
    UnknownCommand,
    /// The command needs an argument the envelope does not carry.
    MissingArgument,
    /// An argument does not parse as the type the command expects.
    BadArgument,
}

/// The stream a subscription request by name stands for: empty, unticked.
pub open spec fn named_stream_m(name: Seq<char>) -> StreamModel {
    StreamModel { name, pattern: Seq::<crate::streams::EventModel>::empty(), last_phase: None }
}

/// What one request does to the clock. Queries leave it untouched;
/// `set_tempo` follows [`crate::clock::set_tempo_m`]; `sync` re-anchors
/// to the fabric phase when that phase lies inside the quantum and the
/// beat counter has headroom, and is otherwise tolerated as a no-op;
/// `add_subscriber` registers a fresh empty stream under the given name.
pub open spec fn step_m(c: ClockModel, req: RequestModel, fab: FabricSnapshot) -> ClockModel {
    match req {
        RequestModel::Report => c,
        RequestModel::GetTempo => c,
        RequestModel::Beats => c,
        RequestModel::GetPhase => c,
        RequestModel::SetTempo(v) => crate::clock::set_tempo_m(c, v),
        RequestModel::Play => crate::clock::play_m(c),
        RequestModel::Sync => {
            if fab.phase < c.quantum && c.beat + c.quantum <= u64::MAX {
                crate::clock::sync_m(c, fab.phase)
            } else {
                c
            }
        },
        RequestModel::Peers => c,
        RequestModel::AddSubscriber(name) => crate::clock::add_subscriber_m(
            c,
            named_stream_m(name),
        ),
        RequestModel::Subscribers => c,
    }
}

/// What one request answers, evaluated against the clock state it found.
pub open spec fn reply_m(c: ClockModel, req: RequestModel, fab: FabricSnapshot) -> Result<
    Reply,
    ClockError,
> {
    match req {
        RequestModel::Report => Ok(Reply::Snapshot(crate::clock::snapshot_m(c))),
        RequestModel::GetTempo => Ok(Reply::Tempo(c.tempo_mbpm)),
        RequestModel::Beats => Ok(Reply::Beats(c.beat)),
        RequestModel::GetPhase => Ok(Reply::Phase(c.phase)),
        RequestModel::SetTempo(v) => {
            if v > 0 {
                Ok(Reply::Done)
            } else {
                Err(ClockError::NonPositiveTempo)
            }
        },
        RequestModel::Play => Ok(Reply::Done),
        RequestModel::Sync => Ok(Reply::Done),
        RequestModel::Peers => Ok(Reply::Peers(c.peers)),
        RequestModel::AddSubscriber(_) => Ok(Reply::Done),
        RequestModel::Subscribers => Ok(Reply::Subscribers(c.subscribers.len() as u64)),
    }
}

/// Executes one request against the clock: the state moves by
/// [`step_m`] and the answer is [`reply_m`] at the state the request
/// found.
pub fn handle_command(clock: &mut Clock, req: &Request, fab: FabricSnapshot) -> (r: Result<
    Reply,
    ClockError,
>)
    requires
        old(clock)@.wf(),
    ensures
        final(clock)@ == step_m(old(clock)@, req@, fab),
        r == reply_m(old(clock)@, req@, fab),
        final(clock)@.wf(),
{
    match req {
        Request::Report => Ok(Reply::Snapshot(clock.report())),
        Request::GetTempo => Ok(Reply::Tempo(clock.get_tempo())),
        Request::Beats => Ok(Reply::Beats(clock.beats())),
        Request::GetPhase => Ok(Reply::Phase(clock.get_phase())),
        Request::SetTempo(v) => {
            match clock.set_tempo(*v) {
                Ok(()) => Ok(Reply::Done),
                Err(e) => Err(e),
            }
        },
        Request::Play => {
            clock.play();
            Ok(Reply::Done)
        },
        Request::Sync => {
            if fab.phase < clock.quantum && clock.beat <= u64::MAX - clock.quantum {
                clock.sync(fab.phase);
            }
            Ok(Reply::Done)
        },
        Request::Peers => Ok(Reply::Peers(clock.peers())),
        Request::AddSubscriber(name) => {
            let s = Stream::new(name.clone());
            clock.add_subscriber(s);
            Ok(Reply::Done)
        },
        Request::Subscribers => Ok(Reply::Subscribers(clock.subscribers() as u64)),
    }
}

/// The clock state after a whole run of requests, oldest first.
pub open spec fn run_m(c: ClockModel, reqs: Seq<RequestModel>, fab: FabricSnapshot) -> ClockModel
    decreases reqs.len(),
{
    if reqs.len() == 0 {
        c
    } else {
        step_m(run_m(c, reqs.drop_last(), fab), reqs.last(), fab)
    }
}

/// The answers of a whole run of requests: one per request, each
/// evaluated against the state left by the requests before it.
pub open spec fn replies_m(c: ClockModel, reqs: Seq<RequestModel>, fab: FabricSnapshot) -> Seq<
    Result<Reply, ClockError>,
>
    decreases reqs.len(),
{
    if reqs.len() == 0 {
        Seq::empty()
    } else {
        replies_m(c, reqs.drop_last(), fab).push(
            reply_m(run_m(c, reqs.drop_last(), fab), reqs.last(), fab),
        )
    }
}

/// Drains a queue of requests in the order they were issued and answers
/// each in that same order.
pub fn run_commands(clock: &mut Clock, reqs: &Vec<Request>, fab: FabricSnapshot) -> (replies: Vec<
    Result<Reply, ClockError>,
>)
    requires
        old(clock)@.wf(),
    ensures
        final(clock)@ == run_m(old(clock)@, reqs@.map_values(|r: Request| r@), fab),
        replies@ == replies_m(old(clock)@, reqs@.map_values(|r: Request| r@), fab),
        final(clock)@.wf(),
{
    let ghost reqs_m = reqs@.map_values(|r: Request| r@);
    let mut replies: Vec<Result<Reply, ClockError>> = Vec::new();
    let mut i: usize = 0;
    while i < reqs.len()
        invariant
            i <= reqs.len(),
            reqs_m == reqs@.map_values(|r: Request| r@),
            clock@ == run_m(old(clock)@, reqs_m.take(i as int), fab),
            replies@ == replies_m(old(clock)@, reqs_m.take(i as int), fab),
            clock@.wf(),
            old(clock)@.wf(),
        decreases reqs.len() - i,
    {
        let reply = handle_command(clock, &reqs[i], fab);
        replies.push(reply);
        proof {
            assert(reqs_m.take(i + 1).drop_last() =~= reqs_m.take(i as int));
            assert(reqs_m.take(i + 1).last() == reqs_m[i as int]);
        }
        i = i + 1;
    }
    proof {
        assert(reqs_m.take(reqs_m.len() as int) =~= reqs_m);
    }
    replies
}

/// Requests from a single controller are answered in the order they were
/// issued: the run yields exactly one answer per request, and the answer
/// at each position is the answer of the request at that position,
/// evaluated against the state left by exactly the requests before it.
pub proof fn lemma_replies_in_issue_order(
    c: ClockModel,
    reqs: Seq<RequestModel>,
    fab: FabricSnapshot,
)
    ensures
        replies_m(c, reqs, fab).len() == reqs.len(),
        forall|i: int|
            0 <= i < reqs.len() ==> replies_m(c, reqs, fab)[i] == reply_m(
                run_m(c, reqs.take(i), fab),
                reqs[i],
                fab,
            ),
    decreases reqs.len(),
{
    if reqs.len() > 0 {
        lemma_replies_in_issue_order(c, reqs.drop_last(), fab);
        assert forall|i: int| 0 <= i < reqs.len() implies replies_m(c, reqs, fab)[i] == reply_m(
            run_m(c, reqs.take(i), fab),
            reqs[i],
            fab,
        ) by {
            if i < reqs.len() - 1 {
                assert(reqs.drop_last().take(i) =~= reqs.take(i));
                assert(reqs.drop_last()[i] == reqs[i]);
            } else {
                assert(reqs.take(i) =~= reqs.drop_last());
            }
        }
    }
}

/// How many subscription requests a run carries.
pub open spec fn count_add_subscribers(reqs: Seq<RequestModel>) -> int
    decreases reqs.len(),
{
    if reqs.len() == 0 {
        0
    } else {
        count_add_subscribers(reqs.drop_last()) + (match reqs.last() {
            RequestModel::AddSubscriber(_) => 1int,
            _ => 0int,
        })
    }
}

/// The subscriber count reflects exactly the number of subscription
/// requests executed since the clock was built: every `add_subscriber`
/// succeeds and adds one, and no other request touches the list.
pub proof fn lemma_subscribers_track_requests(
    c: ClockModel,
    reqs: Seq<RequestModel>,
    fab: FabricSnapshot,
)
    ensures
        run_m(c, reqs, fab).subscribers.len() == c.subscribers.len() + count_add_subscribers(
            reqs,
        ),
        reply_m(run_m(c, reqs, fab), RequestModel::Subscribers, fab) == Ok::<Reply, ClockError>(
            Reply::Subscribers((c.subscribers.len() + count_add_subscribers(reqs)) as u64),
        ),
    decreases reqs.len(),
{
    if reqs.len() > 0 {
        lemma_subscribers_track_requests(c, reqs.drop_last(), fab);
    }
}

/// True when `c` is a decimal digit.
pub open spec fn is_digit(c: char) -> bool {
    48 <= c as int && c as int <= 57
}

/// The numeric value of a digit character.
pub open spec fn digit_val(c: char) -> int {
    c as int - 48
}

/// Every character of `s` is a decimal digit.
pub open spec fn all_digits(s: Seq<char>) -> bool {
    forall|i: int| 0 <= i < s.len() ==> is_digit(#[trigger] s[i])
}

/// The value of a digit string read in base ten.
pub open spec fn digits_val(s: Seq<char>) -> int
    decreases s.len(),
{
    if s.len() == 0 {
        0
    } else {
        digits_val(s.drop_last()) * 10 + digit_val(s.last())
    }
}

/// Powers of ten.
pub open spec fn pow10(n: nat) -> int
    decreases n,
{
    if n == 0 {
        1
    } else {
        10 * pow10((n - 1) as nat)
    }
}

/// Powers of ten are positive.
pub proof fn lemma_pow10_pos(n: nat)
    ensures
        pow10(n) >= 1,
    decreases n,
{
    if n > 0 {
        lemma_pow10_pos((n - 1) as nat);
    }
}

/// Powers of ten grow with the exponent.
pub proof fn lemma_pow10_increases(a: nat, b: nat)
    requires
        a <= b,
    ensures
        pow10(a) <= pow10(b),
    decreases b,
{
    if a < b {
        lemma_pow10_increases(a, (b - 1) as nat);
        lemma_pow10_pos((b - 1) as nat);
    }
}

/// A body of the form `digits`, one to thirteen of them.
pub open spec fn wf_plain(b: Seq<char>) -> bool {
    1 <= b.len() <= 13 && all_digits(b)
}

/// A body of the form `digits.digits` with the dot at position `k`: one
/// to thirteen integer digits, one to three fractional digits.
pub open spec fn wf_split_at(b: Seq<char>, k: int) -> bool {
    &&& 1 <= k <= 13
    &&& k < b.len()
    &&& 1 <= b.len() - k - 1 <= 3
    &&& b[k] == '.'
    &&& all_digits(b.subrange(0, k))
    &&& all_digits(b.subrange(k + 1, b.len() as int))
}

/// A well-formed unsigned decimal body.
pub open spec fn wf_decimal(b: Seq<char>) -> bool {
    wf_plain(b) || (exists|k: int| wf_split_at(b, k))
}

/// The factor that scales one, two or three fractional digits to
/// thousandths.
pub open spec fn frac_scale(l: int) -> int {
    if l == 1 {
        100
    } else if l == 2 {
        10
    } else {
        1
    }
}

/// The value of a well-formed decimal body, in thousandths.
pub open spec fn decimal_milli(b: Seq<char>) -> int {
    if wf_plain(b) {
        digits_val(b) * 1000
    } else {
        let k = choose|k: int| wf_split_at(b, k);
        digits_val(b.subrange(0, k)) * 1000 + digits_val(b.subrange(k + 1, b.len() as int))
            * frac_scale(b.len() - k - 1)
    }
}

/// What a tempo argument parses to: an optional leading minus, then a
/// well-formed decimal body, read in thousandths of a BPM; anything else
/// is a [`ProtocolError::BadArgument`].
pub open spec fn tempo_arg_spec(s: Seq<char>) -> Result<i64, ProtocolError> {
    let neg = s.len() > 0 && s[0] == '-';
    let b = if neg {
        s.skip(1)
    } else {
        s
    };
    if !wf_decimal(b) {
        Err(ProtocolError::BadArgument)
    } else if neg {
        Ok((-decimal_milli(b)) as i64)
    } else {
        Ok(decimal_milli(b) as i64)
    }
}

/// Executable digit test, mirroring [`is_digit`].
fn is_digit_char(c: char) -> (r: bool)
    ensures
        r == is_digit(c),
{
    let u = c as u32;
    48 <= u && u <= 57
}

/// Reads the digit run `s[from..to]` in base ten.
fn digits_value(s: &str, from: usize, to: usize) -> (v: u64)
    requires
        from <= to && to <= s@.len(),
        to - from <= 13,
        forall|j: int| from <= j < to ==> is_digit(#[trigger] s@[j]),
    ensures
        v == digits_val(s@.subrange(from as int, to as int)),
        v < pow10((to - from) as nat),
{
    let mut acc: u64 = 0;
    let mut i: usize = from;
    while i < to
        invariant
            from <= i <= to,
            to <= s@.len(),
            to - from <= 13,
            forall|j: int| from <= j < to ==> is_digit(#[trigger] s@[j]),
            acc == digits_val(s@.subrange(from as int, i as int)),
            acc < pow10((i - from) as nat),
        decreases to - i,
    {
        let c = s.get_char(i);
        let d: u64 = (c as u32 - 48) as u64;
        proof {
            lemma_pow10_increases((i - from) as nat, 13);
            lemma_pow10_13();
            assert(s@.subrange(from as int, i + 1).drop_last() =~= s@.subrange(
                from as int,
                i as int,
            ));
            assert(s@.subrange(from as int, i + 1).last() == s@[i as int]);
        }
        acc = acc * 10 + d;
        i = i + 1;
    }
    proof {
        lemma_pow10_increases((to - from) as nat, 13);
    }
    acc
}

/// The numeric values of the powers of ten the parser leans on.
proof fn lemma_pow10_13()
    ensures
        pow10(3) == 1000,
        pow10(13) == 10_000_000_000_000,
{
    reveal_with_fuel(pow10, 15);
}

/// Parses a decimal tempo argument into thousandths of a BPM.
pub fn parse_tempo_milli(s: &str) -> (r: Result<i64, ProtocolError>)
    ensures
        r == tempo_arg_spec(s@),
{
    let n = s.unicode_len();
    let ghost sv = s@;
    if n == 0 {
        return Err(ProtocolError::BadArgument);
    }
    let neg = s.get_char(0) == '-';
    let off: usize = if neg {
        1
    } else {
        0
    };
    let ghost b = if neg {
        sv.skip(1)
    } else {
        sv
    };
    proof {
        assert(b.len() == sv.len() - off);
        assert(forall|j: int| 0 <= j < b.len() ==> b[j] == sv[j + off]);
    }
    let mut dot: Option<usize> = None;
    let mut i: usize = off;
    while i < n
        invariant
            off <= i <= n,
            sv == s@,
            n == sv.len(),
            n >= 1,
            off <= 1,
            neg == (sv[0] == '-'),
            neg ==> off == 1,
            !neg ==> off == 0,
            b == (if neg {
                sv.skip(1)
            } else {
                sv
            }),
            b.len() == sv.len() - off,
            forall|j: int| 0 <= j < b.len() ==> b[j] == sv[j + off],
            match dot {
                Option::None => forall|j: int| off <= j < i ==> is_digit(#[trigger] sv[j]),
                Option::Some(d) => off <= d < i && sv[d as int] == '.' && (forall|j: int|
                    off <= j < i && j != d ==> is_digit(#[trigger] sv[j])),
            },
        decreases n - i,
    {
        let c = s.get_char(i);
        if c == '.' {
            if let Some(d) = dot {
                proof {
                    let jd = d - off;
                    let ji = i - off;
                    assert(b[jd] == '.');
                    assert(b[ji] == '.');
                    assert(!wf_plain(b)) by {
                        if wf_plain(b) {
                            assert(is_digit(b[jd]));
                        }
                    };
                    assert forall|k: int| !wf_split_at(b, k) by {
                        if wf_split_at(b, k) {
                            let jo = if jd == k {
                                ji
                            } else {
                                jd
                            };
                            assert(b[jo] == '.');
                            assert(jo != k);
                            if jo < k {
                                assert(is_digit(b.subrange(0, k)[jo]));
                            } else {
                                assert(is_digit(b.subrange(k + 1, b.len() as int)[jo - k - 1]));
                            }
                        }
                    };
                }
                return Err(ProtocolError::BadArgument);
            }
            dot = Some(i);
        } else if !is_digit_char(c) {
            proof {
                let ji = i - off;
                assert(b[ji] == c);
                assert(!wf_plain(b)) by {
                    if wf_plain(b) {
                        assert(is_digit(b[ji]));
                    }
                };
                assert forall|k: int| !wf_split_at(b, k) by {
                    if wf_split_at(b, k) {
                        if ji == k {
                            assert(b[k] == '.');
                        } else if ji < k {
                            assert(is_digit(b.subrange(0, k)[ji]));
                        } else {
                            assert(is_digit(b.subrange(k + 1, b.len() as int)[ji - k - 1]));
                        }
                    }
                };
            }
            return Err(ProtocolError::BadArgument);
        }
        i = i + 1;
    }
    match dot {
        None => {
            let len_b = n - off;
            proof {
                assert(all_digits(b));
            }
            if len_b == 0 || len_b > 13 {
                proof {
                    assert forall|k: int| !wf_split_at(b, k) by {
                        if wf_split_at(b, k) {
                            assert(is_digit(b[k]));
                        }
                    };
                }
                return Err(ProtocolError::BadArgument);
            }
            proof {
                assert(wf_plain(b));
            }
            let v = digits_value(s, off, n);
            proof {
                assert(sv.subrange(off as int, n as int) =~= b);
                lemma_pow10_increases((n - off) as nat, 13);
                lemma_pow10_13();
            }
            let m = v * 1000;
            if neg {
                Ok(-(m as i64))
            } else {
                Ok(m as i64)
            }
        },
        Some(d) => {
            let int_len = d - off;
            let frac_len = n - d - 1;
            let ghost jd = d - off;
            proof {
                assert(b[jd] == '.');
                assert(!wf_plain(b)) by {
                    if wf_plain(b) {
                        assert(is_digit(b[jd]));
                    }
                };
                assert forall|k: int| wf_split_at(b, k) implies k == jd by {
                    if k != jd {
                        if jd < k {
                            assert(is_digit(b.subrange(0, k)[jd]));
                        } else {
                            assert(is_digit(b.subrange(k + 1, b.len() as int)[jd - k - 1]));
                        }
                    }
                };
            }
            if int_len < 1 || int_len > 13 || frac_len < 1 || frac_len > 3 {
                proof {
                    assert forall|k: int| !wf_split_at(b, k) by {
                        if wf_split_at(b, k) {
                            assert(k == jd);
                        }
                    };
                }
                return Err(ProtocolError::BadArgument);
            }
            proof {
                assert(all_digits(b.subrange(0, jd))) by {
                    assert forall|j: int| 0 <= j < jd implies is_digit(
                        #[trigger] b.subrange(0, jd)[j],
                    ) by {
                        assert(b.subrange(0, jd)[j] == sv[j + off]);
                    };
                };
                assert(all_digits(b.subrange(jd + 1, b.len() as int))) by {
                    assert forall|j: int| 0 <= j < b.len() - jd - 1 implies is_digit(
                        #[trigger] b.subrange(jd + 1, b.len() as int)[j],
                    ) by {
                        assert(b.subrange(jd + 1, b.len() as int)[j] == sv[j + jd + 1 + off]);
                    };
                };
                assert(wf_split_at(b, jd));
            }
            let iv = digits_value(s, off, d);
            let fv = digits_value(s, d + 1, n);
            let scale: u64 = if frac_len == 1 {
                100
            } else if frac_len == 2 {
                10
            } else {
                1
            };
            proof {
                let k0 = choose|k: int| wf_split_at(b, k);
                assert(wf_split_at(b, jd));
                assert(wf_split_at(b, k0));
                assert(k0 == jd);
                assert(sv.subrange(off as int, d as int) =~= b.subrange(0, jd));
                assert(sv.subrange(d + 1, n as int) =~= b.subrange(jd + 1, b.len() as int));
                lemma_pow10_increases((d - off) as nat, 13);
                lemma_pow10_increases((n - d - 1) as nat, 3);
                lemma_pow10_13();
            }
            let m = iv * 1000 + fv * scale;
            if neg {
                Ok(-(m as i64))
            } else {
                Ok(m as i64)
            }
        },
    }
}

/// Compares two string slices character by character.
pub fn str_eq(a: &str, b: &str) -> (r: bool)
    ensures
        r == (a@ == b@),
{
    let na = a.unicode_len();
    let nb = b.unicode_len();
    if na != nb {
        proof {
            if a@ == b@ {
                assert(a@.len() == b@.len());
            }
        }
        return false;
    }
    let mut i: usize = 0;
    while i < na
        invariant
            i <= na,
            na == a@.len(),
            na == b@.len(),
            forall|j: int| 0 <= j < i ==> a@[j] == b@[j],
        decreases na - i,
    {
        if a.get_char(i) != b.get_char(i) {
            proof {
                if a@ == b@ {
                    assert(a@[i as int] == b@[i as int]);
                }
            }
            return false;
        }
        i = i + 1;
    }
    proof {
        assert(a@ =~= b@);
    }
    true
}

/// The command names the surface understands.
pub open spec fn known_command(name: Seq<char>) -> bool {
    ||| name == "report"@
    ||| name == "get_tempo"@
    ||| name == "beat"@
    ||| name == "get_phase"@
    ||| name == "set_tempo"@
    ||| name == "play"@
    ||| name == "sync"@
    ||| name == "peers"@
    ||| name == "add_subscriber"@
    ||| name == "subscribers"@
}

/// What an envelope parses to: the typed request for a known name with
/// well-formed arguments, and the exact typed error otherwise.
pub open spec fn parse_spec(name: Seq<char>, args: Seq<Seq<char>>) -> Result<
    RequestModel,
    ProtocolError,
> {
    if name == "report"@ {
        Ok(RequestModel::Report)
    } else if name == "get_tempo"@ {
        Ok(RequestModel::GetTempo)
    } else if name == "beat"@ {
        Ok(RequestModel::Beats)
    } else if name == "get_phase"@ {
        Ok(RequestModel::GetPhase)
    } else if name == "set_tempo"@ {
        if args.len() < 1 {
            Err(ProtocolError::MissingArgument)
        } else {
            match tempo_arg_spec(args[0]) {
                Ok(v) => Ok(RequestModel::SetTempo(v)),
                Err(e) => Err(e),
            }
        }
    } else if name == "play"@ {
        Ok(RequestModel::Play)
    } else if name == "sync"@ {
        Ok(RequestModel::Sync)
    } else if name == "peers"@ {
        Ok(RequestModel::Peers)
    } else if name == "add_subscriber"@ {
        if args.len() < 1 {
            Err(ProtocolError::MissingArgument)
        } else {
            Ok(RequestModel::AddSubscriber(args[0]))
        }
    } else if name == "subscribers"@ {
        Ok(RequestModel::Subscribers)
    } else {
        Err(ProtocolError::UnknownCommand)
    }
}

/// The view of a parse result.
pub open spec fn parsed_view(r: Result<Request, ProtocolError>) -> Result<
    RequestModel,
    ProtocolError,
> {
    match r {
        Ok(req) => Ok(req@),
        Err(e) => Err(e),
    }
}

/// Turns a wire envelope into a typed request, or into the exact typed
/// error that says what was wrong with it.
pub fn parse_request(msg: &ClockControlMessage) -> (r: Result<Request, ProtocolError>)
    ensures
        parsed_view(r) == parse_spec(msg.name@, msg.args@.map_values(|a: String| a@)),
{
    let ghost args_m = msg.args@.map_values(|a: String| a@);
    let name = msg.name.as_str();
    if str_eq(name, "report") {
        Ok(Request::Report)
    } else if str_eq(name, "get_tempo") {
        Ok(Request::GetTempo)
    } else if str_eq(name, "beat") {
        Ok(Request::Beats)
    } else if str_eq(name, "get_phase") {
        Ok(Request::GetPhase)
    } else if str_eq(name, "set_tempo") {
        if msg.args.len() < 1 {
            Err(ProtocolError::MissingArgument)
        } else {
            match parse_tempo_milli(msg.args[0].as_str()) {
                Ok(v) => Ok(Request::SetTempo(v)),
                Err(e) => Err(e),
            }
        }
    } else if str_eq(name, "play") {
        Ok(Request::Play)
    } else if str_eq(name, "sync") {
        Ok(Request::Sync)
    } else if str_eq(name, "peers") {
        Ok(Request::Peers)
    } else if str_eq(name, "add_subscriber") {
        if msg.args.len() < 1 {
            Err(ProtocolError::MissingArgument)
        } else {
            Ok(Request::AddSubscriber(msg.args[0].clone()))
        }
    } else if str_eq(name, "subscribers") {
        Ok(Request::Subscribers)
    } else {
        Err(ProtocolError::UnknownCommand)
    }
}

/// Every request preserves the clock invariant; in particular the phase
/// stays inside `[0, quantum)` across the whole command surface.
pub proof fn lemma_step_preserves_wf(c: ClockModel, req: RequestModel, fab: FabricSnapshot)
    requires
        c.wf(),
    ensures
        step_m(c, req, fab).wf(),
{
    match req {
        RequestModel::Sync => {
            if fab.phase < c.quantum && c.beat + c.quantum <= u64::MAX {
                crate::clock::lemma_sync_preserves_wf(c, fab.phase);
            }
        },
        RequestModel::AddSubscriber(name) => {
            assert(named_stream_m(name).wf());
        },
        _ => {},
    }
}

/// A whole run of requests preserves the clock invariant.
pub proof fn lemma_run_preserves_wf(c: ClockModel, reqs: Seq<RequestModel>, fab: FabricSnapshot)
    requires
        c.wf(),
    ensures
        run_m(c, reqs, fab).wf(),
    decreases reqs.len(),
{
    if reqs.len() > 0 {
        lemma_run_preserves_wf(c, reqs.drop_last(), fab);
        lemma_step_preserves_wf(run_m(c, reqs.drop_last(), fab), reqs.last(), fab);
    }
}

/// An unrecognized command name parses to the typed unknown-command
/// error — never to a default request — and a recognized one never does.
pub proof fn lemma_unknown_command_is_typed_error(name: Seq<char>, args: Seq<Seq<char>>)
    ensures
        !known_command(name) ==> parse_spec(name, args) == Err::<RequestModel, ProtocolError>(
            ProtocolError::UnknownCommand,
        ),
        known_command(name) ==> parse_spec(name, args) != Err::<RequestModel, ProtocolError>(
            ProtocolError::UnknownCommand,
        ),
{
}

/// Setting a strictly positive tempo through the protocol is read back
/// exactly by a following tempo query; a non-positive one moves nothing
/// and answers with the typed tempo error.
pub proof fn lemma_protocol_tempo_round_trip(c: ClockModel, v: i64, fab: FabricSnapshot)
    ensures
        v > 0 ==> reply_m(step_m(c, RequestModel::SetTempo(v), fab), RequestModel::GetTempo, fab)
            == Ok::<Reply, ClockError>(Reply::Tempo(v as u64)),
        v <= 0 ==> step_m(c, RequestModel::SetTempo(v), fab) == c && reply_m(
            c,
            RequestModel::SetTempo(v),
            fab,
        ) == Err::<Reply, ClockError>(ClockError::NonPositiveTempo),
{
}


} // verus!
