use rust_rtsp_server::rtsp_msg_parse::{read_request, RawMessage, RtspCommand, RtspRequest};
use rust_rtsp_server::text::chars_of;

fn request(command: Option<RtspCommand>) -> RtspRequest {
    RtspRequest {
        command,
        content_base: Some("rtsp://h/s".to_string()),
        cseq: Some(-3),
        session: Some(String::new()),
        transport: Some(String::new()),
    }
}

#[test]
fn parse_reads_integer_cseq_and_whole_transport() {
    let raw = "SETUP rtsp://h/s RTSP/1.0\r\nCSeq: 12\r\nTransport: RTP/AVP;unicast;client_port=1-2\r\n\r\n";
    let q = RtspRequest::parse_as_rtsp(raw.to_string()).unwrap();
    assert_eq!(q.command, Some(RtspCommand::Setup));
    assert_eq!(q.content_base, Some("rtsp://h/s".to_string()));
    assert_eq!(q.cseq, Some(12));
    assert_eq!(q.session, Some(String::new()));
    assert_eq!(q.transport, Some("RTP/AVP;unicast;client_port=1-2".to_string()));
}

#[test]
fn parse_defaults_cseq_to_zero() {
    let raw = "TEARDOWN anything RTSP/1.0\r\nSession: abc\r\n\r\n";
    let q = RtspRequest::parse_as_rtsp(raw.to_string()).unwrap();
    assert_eq!(q.command, Some(RtspCommand::Teardown));
    assert_eq!(q.content_base, Some("anything".to_string()));
    assert_eq!(q.cseq, Some(0));
    assert_eq!(q.session, Some("abc".to_string()));
}

#[test]
fn read_request_refuses_bad_cseq() {
    assert!(read_request(&chars_of("OPTIONS rtsp://h RTSP/1.0\r\nCSeq: x1\r\n\r\n")).is_none());
    assert!(read_request(&chars_of("OPTIONS rtsp://h RTSP/1.0\r\nCSeq: 99999999999\r\n\r\n"))
        .is_none());
    assert!(read_request(&chars_of("OPTIONS rtsp://h RTSP/1.0\r\nSession\r\n\r\n")).is_none());
    assert!(read_request(&chars_of("OPTIONS\r\n\r\n")).is_none());
    let q = read_request(&chars_of("OPTIONS rtsp://h RTSP/1.0\r\nCSeq: -2147483648\r\n\r\n"))
        .unwrap();
    assert_eq!(q.cseq, Some(i32::MIN));
}

#[test]
fn response_to_options_has_signed_cseq() {
    let r = request(Some(RtspCommand::Options)).response_with_date("Date: X");
    assert_eq!(
        r,
        "RTSP/1.0 200 OK\r\nCSeq: -3\r\nPublic: OPTIONS, DESCRIBE, PLAY, SETUP, TEARDOWN\r\nServer: Rust RTSP server\r\nDate: X\r\n\r\n"
    );
}

#[test]
fn response_to_setup_names_fixed_ports() {
    let r = request(Some(RtspCommand::Setup)).response_with_date("Date: X");
    assert_eq!(
        r,
        "RTSP/1.0 200 OK\r\nCSeq: -3\r\nTransport: RTP/AVP;unicast;client_port=10500-10501;server_port=5700-5701;mode=\"PLAY\"\r\nServer: Rust RTSP server\r\nSession: 1\r\nDate: X\r\n\r\n"
    );
}

#[test]
fn response_to_play_has_no_status_line() {
    let r = request(Some(RtspCommand::Play)).response_with_date("Date: X");
    assert_eq!(
        r,
        "CSeq: -3\r\nRTP-Info: url=: rtsp://h/sstream=0;seq=1;rtptime=0\r\nRange: npt=0-\r\nServer: Rust RTSP server\r\nSession: 1\r\nDate: X\r\n\r\n"
    );
}

#[test]
fn response_to_describe_request() {
    let r = request(Some(RtspCommand::Describe)).response_with_date("Date: X");
    assert_eq!(
        r,
        "RTSP/1.0 200 OK\r\nCSeq: -3\r\nContent-Type: application/sdp\r\nContent-Base: rtsp://h/s\r\nServer: Rust RTSP server\r\nDate: X\r\nContent-Length: 76\r\n\r\nv=0\r\ns=Rust RTSP server\r\nt=0 0\r\nm=video 0 RTP/AVP 96\r\na=rtpmap:96 H264/90000"
    );
}

#[test]
fn response_without_command_is_empty() {
    assert_eq!(request(None).response_with_date("Date: X"), "");
    assert_eq!(request(Some(RtspCommand::Teardown)).response(), Some(String::new()));
    assert!(request(None).has_response_headers());
}

#[test]
fn live_response_is_always_some() {
    let r = request(Some(RtspCommand::Options)).response().unwrap();
    assert!(r.starts_with("RTSP/1.0 200 OK\r\nCSeq: -3\r\n"));
}
