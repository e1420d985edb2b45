use rust_rtsp_server::rtsp_msg_handler::{
    read_message, RtspCommand, RtspMessage, RtspParsable, RtspResponse,
};
use rust_rtsp_server::text::chars_of;

const OPTIONS_REQ: &str = "OPTIONS rtsp://127.0.0.1:554/stream RTSP/1.0\r\nCSeq: 2\r\nUser-Agent: Lavf58.29.100\r\n\r\n";
const SETUP_REQ: &str = "SETUP rtsp://127.0.0.1:554/stream/streamid=0 RTSP/1.0\r\nTransport: RTP/AVP/UDP;unicast;client_port=15616-15617\r\nCSeq: 4\r\nUser-Agent: Lavf58.29.100\r\n\r\n";

fn message(command: Option<RtspCommand>) -> RtspMessage {
    RtspMessage {
        command,
        content_base: Some("rtsp://127.0.0.1:554/stream".to_string()),
        cseq: Some("7".to_string()),
        session: None,
        client_rtp: Some("5000".to_string()),
        client_rtcp: Some("5001".to_string()),
    }
}

#[test]
fn parse_options_request() {
    let m = RtspMessage::parse_as_rtsp(OPTIONS_REQ.to_string()).unwrap();
    assert_eq!(m.command, Some(RtspCommand::Options));
    assert_eq!(m.content_base, Some("rtsp://127.0.0.1:554/stream".to_string()));
    assert_eq!(m.cseq, Some("2".to_string()));
    assert_eq!(m.session, None);
    assert_eq!(m.client_rtp, None);
    assert_eq!(m.client_rtcp, None);
}

#[test]
fn parse_setup_request_reads_client_ports() {
    let m = RtspMessage::parse_as_rtsp(SETUP_REQ.to_string()).unwrap();
    assert_eq!(m.command, Some(RtspCommand::Setup));
    assert_eq!(m.cseq, Some("4".to_string()));
    assert_eq!(m.client_rtp, Some("15616".to_string()));
    assert_eq!(m.client_rtcp, Some("15617".to_string()));
}

#[test]
fn parse_keeps_last_header_and_session() {
    let raw = "PLAY rtsp://h/s RTSP/1.0\r\nCSeq: 1\r\nSession: 1\r\nCSeq: 5: extra\r\n\r\n";
    let m = RtspMessage::parse_as_rtsp(raw.to_string()).unwrap();
    assert_eq!(m.command, Some(RtspCommand::Play));
    assert_eq!(m.cseq, Some("5".to_string()));
    assert_eq!(m.session, Some("1".to_string()));
}

#[test]
fn parse_content_base_needs_rtsp_scheme() {
    let raw = "DESCRIBE http://h/s RTSP/1.0\r\nCSeq: 3\r\n\r\n";
    let m = RtspMessage::parse_as_rtsp(raw.to_string()).unwrap();
    assert_eq!(m.command, Some(RtspCommand::Describe));
    assert_eq!(m.content_base, None);
}

#[test]
fn parse_unknown_command() {
    let raw = "GET_PARAMETER rtsp://h/s RTSP/1.0\r\nCSeq: 9\r\n\r\n";
    let m = RtspMessage::parse_as_rtsp(raw.to_string()).unwrap();
    assert_eq!(m.command, None);
    assert_eq!(m.cseq, Some("9".to_string()));
}

#[test]
fn read_message_refuses_faulty_requests() {
    // A request line of one word.
    assert!(read_message(&chars_of("OPTIONS\r\n\r\n")).is_none());
    // A CSeq line without a value.
    assert!(read_message(&chars_of("OPTIONS rtsp://h RTSP/1.0\r\nCSeq\r\n\r\n")).is_none());
    // A client_port item without '='.
    assert!(read_message(&chars_of(
        "SETUP rtsp://h RTSP/1.0\r\nTransport: RTP/AVP;client_port\r\n\r\n"
    ))
    .is_none());
    // A client_port value without '-'.
    assert!(read_message(&chars_of(
        "SETUP rtsp://h RTSP/1.0\r\nTransport: RTP/AVP;client_port=5000\r\n\r\n"
    ))
    .is_none());
    assert!(read_message(&chars_of(OPTIONS_REQ)).is_some());
}

#[test]
fn response_to_options() {
    let r = message(Some(RtspCommand::Options)).response_with_date("Date: X");
    assert_eq!(
        r,
        Some(
            "RTSP/1.0 200 OK\r\nCSeq: 7\r\nPublic: OPTIONS, DESCRIBE, PLAY, SETUP, TEARDOWN\r\nServer: Rust RTSP server\r\nDate: X\r\n\r\n"
                .to_string()
        )
    );
}

#[test]
fn response_to_describe() {
    let r = message(Some(RtspCommand::Describe)).response_with_date("Date: X");
    assert_eq!(
        r,
        Some(
            "RTSP/1.0 200 OK\r\nCSeq: 7\r\nContent-Type: application/sdp\r\nContent-Base: rtsp://127.0.0.1:554/stream\r\nServer: Rust RTSP server\r\nDate: X\r\nContent-Length: 76\r\n\r\nv=0\r\ns=Rust RTSP server\r\nt=0 0\r\nm=video 0 RTP/AVP 96\r\na=rtpmap:96 H264/90000"
                .to_string()
        )
    );
}

#[test]
fn response_to_setup() {
    let r = message(Some(RtspCommand::Setup)).response_with_date("Date: X");
    assert_eq!(
        r,
        Some(
            "RTSP/1.0 200 OK\r\nCSeq: 7\r\nTransport: RTP/AVP;unicast;client_port=5000-5001;server_port=5700-5701;mode=\"PLAY\"\r\nServer: Rust RTSP server\r\nSession: 1\r\nDate: X\r\n\r\n"
                .to_string()
        )
    );
}

#[test]
fn response_to_play() {
    let r = message(Some(RtspCommand::Play)).response_with_date("Date: X");
    assert_eq!(
        r,
        Some(
            "RTSP/1.0 200 OK\r\nCSeq: 7\r\nRTP-Info: url=:rtsp://127.0.0.1:554/stream/stream=0;seq=1;rtptime=0\r\nRange: npt=0-\r\nServer: Rust RTSP server\r\nSession: 1\r\nDate: X\r\n\r\n"
                .to_string()
        )
    );
}

#[test]
fn response_to_teardown_is_empty() {
    let r = message(Some(RtspCommand::Teardown)).response_with_date("Date: X");
    assert_eq!(r, Some(String::new()));
}

#[test]
fn no_response_without_command() {
    assert_eq!(message(None).response_with_date("Date: X"), None);
    assert_eq!(message(None).response(), None);
}

#[test]
fn live_response_is_dated_now() {
    let r = message(Some(RtspCommand::Options)).response().unwrap();
    assert!(r.starts_with("RTSP/1.0 200 OK\r\nCSeq: 7\r\n"));
    let date_line = r.split("\r\n").nth(4).unwrap();
    assert!(date_line.starts_with("Date: "));
    assert!(date_line.len() > "Date: ".len());
    assert!(date_line.ends_with("+0000"));
}

#[test]
fn response_echoes_request_cseq() {
    let m = RtspMessage::parse_as_rtsp(SETUP_REQ.to_string()).unwrap();
    let r = m.response_with_date("Date: Y").unwrap();
    let lines: Vec<&str> = r.split("\r\n").collect();
    assert_eq!(lines[0], "RTSP/1.0 200 OK");
    assert_eq!(lines[1], "CSeq: 4");
}

#[test]
fn response_headers_check() {
    let mut m = message(Some(RtspCommand::Setup));
    assert!(m.has_response_headers());
    m.client_rtcp = None;
    assert!(!m.has_response_headers());
    let mut d = message(Some(RtspCommand::Describe));
    d.content_base = None;
    assert!(!d.has_response_headers());
    assert!(message(Some(RtspCommand::Teardown)).has_response_headers());
}

#[test]
fn message_clone_keeps_fields() {
    let m = message(Some(RtspCommand::Play));
    let c = m.clone();
    assert_eq!(c.command, m.command);
    assert_eq!(c.content_base, m.content_base);
    assert_eq!(c.cseq, m.cseq);
    assert_eq!(c.client_rtp, m.client_rtp);
}

#[test]
fn setup_request_read_then_answered() {
    let raw = "SETUP rtsp://127.0.0.1:8554/test RTSP/1.0\r\nCSeq: 3\r\nTransport: RTP/AVP;unicast;client_port=5000-5001\r\n\r\n";
    let m = RtspMessage::parse_as_rtsp(raw.to_string()).unwrap();
    assert_eq!(m.session, None);
    let r = m.response_with_date("Date: Z").unwrap();
    assert_eq!(
        r,
        "RTSP/1.0 200 OK\r\nCSeq: 3\r\nTransport: RTP/AVP;unicast;client_port=5000-5001;server_port=5700-5701;mode=\"PLAY\"\r\nServer: Rust RTSP server\r\nSession: 1\r\nDate: Z\r\n\r\n"
    );
}

#[test]
fn describe_body_follows_blank_line_with_declared_length() {
    let r = message(Some(RtspCommand::Describe)).response().unwrap();
    let i = r.find("\r\n\r\n").unwrap();
    let body = &r[i + 4..];
    assert_eq!(body.len(), 76);
    assert!(r[..i].ends_with("\r\nContent-Length: 76"));
    let s = message(Some(RtspCommand::Setup)).response().unwrap();
    assert_eq!(s.find("\r\n\r\n").unwrap() + 4, s.len());
}

#[test]
fn live_date_line_has_rfc2822_shape() {
    let r = message(Some(RtspCommand::Options)).response().unwrap();
    let date_line = r.split("\r\n").nth(4).unwrap();
    let stamp = &date_line["Date: ".len()..];
    assert!(stamp.len() == 30 || stamp.len() == 31);
    assert!(stamp.ends_with(" +0000"));
    assert_eq!(&stamp[3..5], ", ");
}
