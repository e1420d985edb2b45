use rust_rtsp_server::client::{ClientAction, ClientEvent, ClientState, CloseReason, Phase};
use rust_rtsp_server::rtsp_msg_handler::RtspCommand;

fn feed(state: &mut ClientState, text: &str) -> ClientAction {
    let mut last = ClientAction::ReadLine;
    for line in text.split_inclusive('\n') {
        last = state.step(ClientEvent::LineRead(line.to_string()));
    }
    last
}

#[test]
fn options_request_is_answered() {
    let mut state = ClientState::new();
    match state.step(ClientEvent::LineRead("OPTIONS rtsp://h/s RTSP/1.0\r\n".to_string())) {
        ClientAction::ReadLine => (),
        _ => panic!("expected to read on"),
    }
    match feed(&mut state, "CSeq: 1\r\n\r\n") {
        ClientAction::Respond(m) => {
            assert_eq!(m.command, Some(RtspCommand::Options));
            assert_eq!(m.cseq, Some("1".to_string()));
        }
        _ => panic!("expected a response"),
    }
    assert_eq!(state.buffer, "");
    assert!(matches!(state.phase, Phase::Reading));
}

#[test]
fn setup_probes_ports_then_play_streams() {
    let mut state = ClientState::new();
    let setup = "SETUP rtsp://h/s RTSP/1.0\r\nCSeq: 2\r\nTransport: RTP/AVP;unicast;client_port=6000-6001\r\n\r\n";
    match feed(&mut state, setup) {
        ClientAction::ProbePort(p) => assert_eq!(p, 12000),
        _ => panic!("expected a port probe"),
    }
    // A stray line while probing asks for the same port again.
    match state.step(ClientEvent::LineRead("x\r\n".to_string())) {
        ClientAction::ProbePort(p) => assert_eq!(p, 12000),
        _ => panic!("expected the same probe"),
    }
    match state.step(ClientEvent::PortProbed(false)) {
        ClientAction::ProbePort(p) => assert_eq!(p, 12001),
        _ => panic!("expected the next probe"),
    }
    match state.step(ClientEvent::PortProbed(true)) {
        ClientAction::Respond(m) => assert_eq!(m.command, Some(RtspCommand::Setup)),
        _ => panic!("expected a response"),
    }
    let session = state.session.as_ref().unwrap();
    assert_eq!(session.client_rtp, "6000");
    assert_eq!(session.client_rtcp, "6001");
    assert_eq!(session.server_rtcp, "12001");
    match feed(&mut state, "PLAY rtsp://h/s RTSP/1.0\r\nCSeq: 3\r\n\r\n") {
        ClientAction::StartStream(s, m) => {
            assert_eq!(s.server_rtcp, "12001");
            assert_eq!(m.command, Some(RtspCommand::Play));
        }
        _ => panic!("expected the stream to start"),
    }
}

#[test]
fn busy_ports_exhausted_records_port_zero() {
    let mut state = ClientState::new();
    let mut action = feed(&mut state, "SETUP rtsp://h/s RTSP/1.0\r\nCSeq: 2\r\n\r\n");
    let mut probes = 0u32;
    while let ClientAction::ProbePort(_) = action {
        probes += 1;
        action = state.step(ClientEvent::PortProbed(false));
    }
    assert_eq!(probes, 38000);
    assert!(matches!(action, ClientAction::Respond(_)));
    let session = state.session.as_ref().unwrap();
    assert_eq!(session.server_rtcp, "0");
    assert_eq!(session.client_rtp, "");
}

#[test]
fn play_without_session_closes() {
    let mut state = ClientState::new();
    match feed(&mut state, "PLAY rtsp://h/s RTSP/1.0\r\nCSeq: 3\r\n\r\n") {
        ClientAction::Close(r) => assert_eq!(r, CloseReason::NoSession),
        _ => panic!("expected to close"),
    }
    // Closed stays closed.
    match state.step(ClientEvent::LineRead("OPTIONS rtsp://h RTSP/1.0\r\n\r\n".to_string())) {
        ClientAction::Close(r) => assert_eq!(r, CloseReason::NoSession),
        _ => panic!("expected to stay closed"),
    }
}

#[test]
fn unknown_command_and_faults_close() {
    let mut state = ClientState::new();
    match feed(&mut state, "HELLO rtsp://h RTSP/1.0\r\n\r\n") {
        ClientAction::Close(r) => assert_eq!(r, CloseReason::UnknownCommand),
        _ => panic!("expected to close"),
    }
    let mut state = ClientState::new();
    match feed(&mut state, "OPTIONS\r\n\r\n") {
        ClientAction::Close(r) => assert_eq!(r, CloseReason::Malformed),
        _ => panic!("expected to close"),
    }
    let mut state = ClientState::new();
    assert!(matches!(state.step(ClientEvent::EndOfInput), ClientAction::Close(CloseReason::EndOfInput)));
    let mut state = ClientState::new();
    assert!(matches!(state.step(ClientEvent::ReadFailed), ClientAction::Close(CloseReason::ReadFailed)));
    let mut state = ClientState::new();
    assert!(matches!(state.step(ClientEvent::PortProbed(true)), ClientAction::ReadLine));
}

#[test]
fn requests_answered_in_order_each_alone() {
    let mut state = ClientState::new();
    let mut answered: Vec<String> = Vec::new();
    let requests = [
        "OPTIONS rtsp://h/s RTSP/1.0\r\nCSeq: 1\r\n\r\n",
        "DESCRIBE rtsp://h/s RTSP/1.0\r\nCSeq: 2\r\n\r\n",
        "TEARDOWN rtsp://h/s RTSP/1.0\r\nCSeq: 3\r\n\r\n",
        "OPTIONS rtsp://h/s RTSP/1.0\r\nCSeq: 4\r\n\r\n",
    ];
    for r in requests.iter() {
        match feed(&mut state, r) {
            ClientAction::Respond(m) => answered.push(m.cseq.unwrap()),
            _ => panic!("expected a response"),
        }
        assert_eq!(state.buffer, "");
        assert!(matches!(state.phase, Phase::Reading));
    }
    assert_eq!(answered, vec!["1", "2", "3", "4"]);
}

#[test]
fn teardown_keeps_session_for_later_play() {
    let mut state = ClientState::new();
    let setup = "SETUP rtsp://h/s RTSP/1.0\r\nCSeq: 1\r\nTransport: RTP/AVP;unicast;client_port=7000-7001\r\n\r\n";
    match feed(&mut state, setup) {
        ClientAction::ProbePort(_) => (),
        _ => panic!("expected a port probe"),
    }
    match state.step(ClientEvent::PortProbed(true)) {
        ClientAction::Respond(_) => (),
        _ => panic!("expected a response"),
    }
    match feed(&mut state, "TEARDOWN rtsp://h/s RTSP/1.0\r\nCSeq: 2\r\n\r\n") {
        ClientAction::Respond(m) => assert_eq!(m.command, Some(RtspCommand::Teardown)),
        _ => panic!("expected a response"),
    }
    match feed(&mut state, "PLAY rtsp://h/s RTSP/1.0\r\nCSeq: 3\r\n\r\n") {
        ClientAction::StartStream(s, _) => {
            assert_eq!(s.client_rtp, "7000");
            assert_eq!(s.server_rtcp, "12000");
        }
        _ => panic!("expected the stream to start"),
    }
}
