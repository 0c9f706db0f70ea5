use eremit::clock::{Clock, ClockError, DEFAULT_QUANTUM, DEFAULT_TEMPO_MBPM};
use eremit::protocol::{
    handle_command, parse_request, parse_tempo_milli, run_commands, str_eq, ClockControlMessage,
    FabricSnapshot, ProtocolError, Reply, Request,
};

fn msg(name: &str, args: &[&str]) -> ClockControlMessage {
    ClockControlMessage {
        name: name.to_string(),
        args: args.iter().map(|a| a.to_string()).collect(),
    }
}

fn fab() -> FabricSnapshot {
    FabricSnapshot { peers: 0, phase: 0 }
}

#[test]
fn every_surface_command_parses() {
    assert_eq!(parse_request(&msg("report", &[])), Ok(Request::Report));
    assert_eq!(parse_request(&msg("get_tempo", &[])), Ok(Request::GetTempo));
    assert_eq!(parse_request(&msg("beat", &[])), Ok(Request::Beats));
    assert_eq!(parse_request(&msg("get_phase", &[])), Ok(Request::GetPhase));
    assert_eq!(
        parse_request(&msg("set_tempo", &["120.5"])),
        Ok(Request::SetTempo(120_500))
    );
    assert_eq!(parse_request(&msg("play", &[])), Ok(Request::Play));
    assert_eq!(parse_request(&msg("sync", &[])), Ok(Request::Sync));
    assert_eq!(parse_request(&msg("peers", &[])), Ok(Request::Peers));
    assert_eq!(
        parse_request(&msg("add_subscriber", &["default"])),
        Ok(Request::AddSubscriber("default".to_string()))
    );
    assert_eq!(parse_request(&msg("subscribers", &[])), Ok(Request::Subscribers));
}

#[test]
fn unknown_command_is_a_typed_error() {
    assert_eq!(
        parse_request(&msg("frobnicate", &[])),
        Err(ProtocolError::UnknownCommand)
    );
    assert_eq!(parse_request(&msg("", &[])), Err(ProtocolError::UnknownCommand));
    assert_eq!(
        parse_request(&msg("Set_Tempo", &["120"])),
        Err(ProtocolError::UnknownCommand)
    );
}

#[test]
fn missing_arguments_are_a_typed_error() {
    assert_eq!(parse_request(&msg("set_tempo", &[])), Err(ProtocolError::MissingArgument));
    assert_eq!(
        parse_request(&msg("add_subscriber", &[])),
        Err(ProtocolError::MissingArgument)
    );
}

#[test]
fn tempo_arguments_parse_to_thousandths() {
    assert_eq!(parse_tempo_milli("120"), Ok(120_000));
    assert_eq!(parse_tempo_milli("120.5"), Ok(120_500));
    assert_eq!(parse_tempo_milli("0.075"), Ok(75));
    assert_eq!(parse_tempo_milli("0.5"), Ok(500));
    assert_eq!(parse_tempo_milli("33.33"), Ok(33_330));
    assert_eq!(parse_tempo_milli("-120.5"), Ok(-120_500));
    assert_eq!(parse_tempo_milli("-3"), Ok(-3_000));
    assert_eq!(parse_tempo_milli("0"), Ok(0));
    assert_eq!(parse_tempo_milli("9999999999999"), Ok(9_999_999_999_999_000));
}

#[test]
fn malformed_tempo_arguments_are_a_typed_error() {
    assert_eq!(parse_tempo_milli(""), Err(ProtocolError::BadArgument));
    assert_eq!(parse_tempo_milli("-"), Err(ProtocolError::BadArgument));
    assert_eq!(parse_tempo_milli("abc"), Err(ProtocolError::BadArgument));
    assert_eq!(parse_tempo_milli("1."), Err(ProtocolError::BadArgument));
    assert_eq!(parse_tempo_milli(".5"), Err(ProtocolError::BadArgument));
    assert_eq!(parse_tempo_milli("1.2.3"), Err(ProtocolError::BadArgument));
    assert_eq!(parse_tempo_milli("--1"), Err(ProtocolError::BadArgument));
    assert_eq!(parse_tempo_milli("1.2345"), Err(ProtocolError::BadArgument));
    assert_eq!(parse_tempo_milli("12345678901234"), Err(ProtocolError::BadArgument));
    assert_eq!(parse_tempo_milli("12 0"), Err(ProtocolError::BadArgument));
    assert_eq!(
        parse_request(&msg("set_tempo", &["fast"])),
        Err(ProtocolError::BadArgument)
    );
}

#[test]
fn handle_answers_queries_against_current_state() {
    let mut c = Clock::new(DEFAULT_TEMPO_MBPM, DEFAULT_QUANTUM);
    assert_eq!(
        handle_command(&mut c, &Request::GetTempo, fab()),
        Ok(Reply::Tempo(120_000))
    );
    assert_eq!(handle_command(&mut c, &Request::Beats, fab()), Ok(Reply::Beats(0)));
    assert_eq!(handle_command(&mut c, &Request::GetPhase, fab()), Ok(Reply::Phase(0)));
    assert_eq!(handle_command(&mut c, &Request::Peers, fab()), Ok(Reply::Peers(0)));
    assert_eq!(
        handle_command(&mut c, &Request::Subscribers, fab()),
        Ok(Reply::Subscribers(0))
    );
}

#[test]
fn handle_set_tempo_rejects_non_positive_and_keeps_state() {
    let mut c = Clock::new(DEFAULT_TEMPO_MBPM, DEFAULT_QUANTUM);
    assert_eq!(
        handle_command(&mut c, &Request::SetTempo(-500), fab()),
        Err(ClockError::NonPositiveTempo)
    );
    assert_eq!(c.get_tempo(), 120_000);
    assert_eq!(handle_command(&mut c, &Request::SetTempo(98_000), fab()), Ok(Reply::Done));
    assert_eq!(c.get_tempo(), 98_000);
}

#[test]
fn handle_play_sync_and_subscribe() {
    let mut c = Clock::new(DEFAULT_TEMPO_MBPM, DEFAULT_QUANTUM);
    assert_eq!(handle_command(&mut c, &Request::Play, fab()), Ok(Reply::Done));
    c.advance(1_500_000);
    assert_eq!(c.get_phase(), 3_000_000);
    let aligned = FabricSnapshot { peers: 1, phase: 500_000 };
    assert_eq!(handle_command(&mut c, &Request::Sync, aligned), Ok(Reply::Done));
    assert_eq!(c.get_phase(), 500_000);
    assert_eq!(
        handle_command(&mut c, &Request::AddSubscriber("default".to_string()), fab()),
        Ok(Reply::Done)
    );
    assert_eq!(
        handle_command(&mut c, &Request::Subscribers, fab()),
        Ok(Reply::Subscribers(1))
    );
}

#[test]
fn report_replies_with_a_snapshot() {
    let mut c = Clock::new(DEFAULT_TEMPO_MBPM, DEFAULT_QUANTUM);
    match handle_command(&mut c, &Request::Report, fab()) {
        Ok(Reply::Snapshot(snap)) => {
            assert_eq!(snap.tempo_mbpm, 120_000);
            assert_eq!(snap.beat, 0);
        }
        other => panic!("unexpected reply: {:?}", other),
    }
}

#[test]
fn a_run_of_commands_is_answered_in_issue_order() {
    let mut c = Clock::new(DEFAULT_TEMPO_MBPM, DEFAULT_QUANTUM);
    let reqs = vec![
        Request::SetTempo(100_000),
        Request::GetTempo,
        Request::SetTempo(0),
        Request::GetTempo,
        Request::Beats,
    ];
    let replies = run_commands(&mut c, &reqs, fab());
    assert_eq!(
        replies,
        vec![
            Ok(Reply::Done),
            Ok(Reply::Tempo(100_000)),
            Err(ClockError::NonPositiveTempo),
            Ok(Reply::Tempo(100_000)),
            Ok(Reply::Beats(0)),
        ]
    );
}

#[test]
fn str_eq_compares_by_contents() {
    assert!(str_eq("play", "play"));
    assert!(!str_eq("play", "pray"));
    assert!(!str_eq("play", "playy"));
    assert!(str_eq("", ""));
}

#[test]
fn sync_with_an_out_of_range_fabric_phase_is_tolerated() {
    let mut c = Clock::new(DEFAULT_TEMPO_MBPM, DEFAULT_QUANTUM);
    c.play();
    c.advance(500_000);
    let beat = c.beats();
    let wild = FabricSnapshot { peers: 0, phase: DEFAULT_QUANTUM + 1 };
    assert_eq!(handle_command(&mut c, &Request::Sync, wild), Ok(Reply::Done));
    assert_eq!(c.beats(), beat);
}
