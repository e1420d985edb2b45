use rust_rtsp_server::rtsp_msg_handler::{RtspCommand, RtspMessage};
use rust_rtsp_server::rtsp_session::{
    next_server_port, ClientPorts, RtspSession, FIRST_SERVER_PORT, SERVER_PORT_END,
};

fn setup(rtp: Option<&str>, rtcp: Option<&str>) -> RtspMessage {
    RtspMessage {
        command: Some(RtspCommand::Setup),
        content_base: None,
        cseq: Some("1".to_string()),
        session: None,
        client_rtp: rtp.map(|s| s.to_string()),
        client_rtcp: rtcp.map(|s| s.to_string()),
    }
}

#[test]
fn records_ports_of_request() {
    let s = RtspSession::record_client_ports(setup(Some("5000"), Some("5001")), Some(12003));
    assert_eq!(s.client_rtp, "5000");
    assert_eq!(s.client_rtcp, "5001");
    assert_eq!(s.server_rtcp, "12003");
}

#[test]
fn missing_ports_become_empty_and_zero() {
    let s = RtspSession::record_client_ports(setup(None, None), None);
    assert_eq!(s.client_rtp, "");
    assert_eq!(s.client_rtcp, "");
    assert_eq!(s.server_rtcp, "0");
}

#[test]
fn server_ports_run_from_12000_to_49999() {
    assert_eq!(FIRST_SERVER_PORT, 12000);
    assert_eq!(SERVER_PORT_END, 50000);
    assert_eq!(next_server_port(12000), Some(12001));
    assert_eq!(next_server_port(49998), Some(49999));
    assert_eq!(next_server_port(49999), None);
}

#[test]
fn session_clone_keeps_ports() {
    let s = RtspSession::record_client_ports(setup(Some("1"), Some("2")), Some(3));
    let c = s.clone();
    assert_eq!(c.client_rtp, "1");
    assert_eq!(c.client_rtcp, "2");
    assert_eq!(c.server_rtcp, "3");
}
