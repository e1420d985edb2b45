use rust_rtsp_server::rtsp_req_parse::{RawMessage, RtspRequest};

#[test]
fn options_request_is_read_blank() {
    let raw = "OPTIONS rtsp://h/s RTSP/1.0\r\nCSeq: 2\r\nSession: 7\r\n\r\n";
    let q = RtspRequest::parse_as_rtsp(raw.to_string()).unwrap();
    assert!(q.command.is_none());
    assert!(q.uri.is_none());
    assert!(q.rtsp_spec_version.is_none());
    assert!(q.cseq.is_none());
    assert!(q.user_agent.is_none());
    assert!(q.session.is_none());
    assert!(q.transport.is_none());
}

#[test]
fn other_requests_are_not_read() {
    for raw in [
        "DESCRIBE rtsp://h RTSP/1.0\r\n\r\n",
        "PLAY rtsp://h RTSP/1.0\r\n\r\n",
        "SETUP rtsp://h RTSP/1.0\r\n\r\n",
        "TEARDOWN rtsp://h RTSP/1.0\r\n\r\n",
        "HELLO\r\n\r\n",
        "",
    ] {
        assert!(RtspRequest::parse_as_rtsp(raw.to_string()).is_none());
    }
}
