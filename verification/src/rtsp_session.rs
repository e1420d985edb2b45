//! The streaming session that a `SETUP` request establishes: the client's RTP
//! and RTCP ports and the server's RTCP port.

use vstd::prelude::*;

use crate::rtsp_msg_handler::{RtspMessage, RtspMessageModel};
use crate::text::{all_digits, decimal, digits_value, lemma_decimal_reads_back, push_decimal};

verus! {

broadcast use vstd::string::group_string_axioms;

/// The first port that the server tries for its RTCP socket.
pub const FIRST_SERVER_PORT: u16 = 12000;

/// The end (excluded) of the ports that the server tries for its RTCP socket.
pub const SERVER_PORT_END: u16 = 50000;

/// A streaming session.
pub struct RtspSession {
    pub client_rtp: String,
    pub client_rtcp: String,
    pub server_rtcp: String,
}

/// The mathematical value of an [`RtspSession`].
pub struct RtspSessionModel {
    pub client_rtp: Seq<char>,
    pub client_rtcp: Seq<char>,
    pub server_rtcp: Seq<char>,
}

impl View for RtspSession {
    type V = RtspSessionModel;

    open spec fn view(&self) -> RtspSessionModel {
        RtspSessionModel {
            client_rtp: self.client_rtp@,
            client_rtcp: self.client_rtcp@,
            server_rtcp: self.server_rtcp@,
        }
    }
}

impl Clone for RtspSession {
    fn clone(&self) -> (r: Self)
        ensures
            r@ == self@,
    {
        RtspSession {
            client_rtp: self.client_rtp.clone(),
            client_rtcp: self.client_rtcp.clone(),
            server_rtcp: self.server_rtcp.clone(),
        }
    }
}

/// A session type that can be made from a `SETUP` request.
pub trait ClientPorts {
    /// Records the client ports of `msg`, with `server_rtcp_port` as the
    /// server's RTCP port when a free one was found.
    fn record_client_ports(msg: RtspMessage, server_rtcp_port: Option<u16>) -> RtspSession;
}

/// The text of an optional field, or the empty text.
pub open spec fn text_or_empty(t: Option<Seq<char>>) -> Seq<char> {
    match t {
        Some(v) => v,
        None => Seq::empty(),
    }
}

/// The session recorded from a request and the server port found for it
/// (port 0 when none was found).
pub open spec fn session_model(msg: RtspMessageModel, server_rtcp_port: Option<u16>) -> RtspSessionModel {
    RtspSessionModel {
        client_rtp: text_or_empty(msg.client_rtp),
        client_rtcp: text_or_empty(msg.client_rtcp),
        server_rtcp: decimal(
            match server_rtcp_port {
                Some(p) => p as nat,
                None => 0,
            },
        ),
    }
}

/// The server port of a recorded session is written in decimal digits that
/// read back as the port found (0 when none was), and the session depends on
/// the request only through its client ports.
pub proof fn lemma_session_ports(m: RtspMessageModel, n: RtspMessageModel, port: Option<u16>)
    ensures
        all_digits(session_model(m, port).server_rtcp),
        digits_value(session_model(m, port).server_rtcp) == match port {
            Some(p) => p as int,
            None => 0,
        },
        m.client_rtp == n.client_rtp && m.client_rtcp == n.client_rtcp ==> session_model(m, port)
            == session_model(n, port),
{
    lemma_decimal_reads_back(
        match port {
            Some(p) => p as nat,
            None => 0,
        },
    );
}

/// The port to try after `port`, if it is not the last one.
pub open spec fn next_port(port: u16) -> Option<u16> {
    if port + 1 < SERVER_PORT_END {
        Some((port + 1) as u16)
    } else {
        None
    }
}

/// The port to try for the server's RTCP socket after `port` was found busy.
pub fn next_server_port(port: u16) -> (r: Option<u16>)
    ensures
        r == next_port(port),
{
    if port < SERVER_PORT_END - 1 {
        Some(port + 1)
    } else {
        None
    }
}

/// The text of an optional field, or an empty string.
fn unwrap_or_empty(t: Option<String>) -> (r: String)
    ensures
        r@ == text_or_empty(t.deep_view()),
{
    match t {
        Some(v) => v,
        None => String::new(),
    }
}

impl ClientPorts for RtspSession {
    fn record_client_ports(msg: RtspMessage, server_rtcp_port: Option<u16>) -> (r: RtspSession)
        ensures
            r@ == session_model(msg@, server_rtcp_port),
    {
        let port: u16 = match server_rtcp_port {
            Some(p) => p,
            None => 0,
        };
        let mut server_rtcp = String::new();
        push_decimal(&mut server_rtcp, port as u64);
        RtspSession {
            client_rtp: unwrap_or_empty(msg.client_rtp),
            client_rtcp: unwrap_or_empty(msg.client_rtcp),
            server_rtcp,
        }
    }
}


/// A recorded session keeps the request's client ports exactly as written,
/// whole: the RTP and RTCP port texts of the request when it names them,
/// and empty texts when it does not.
pub proof fn lemma_session_keeps_client_ports(msg: RtspMessageModel, port: Option<u16>)
    ensures
        msg.client_rtp matches Some(v) ==> session_model(msg, port).client_rtp == v,
        msg.client_rtcp matches Some(v) ==> session_model(msg, port).client_rtcp == v,
        msg.client_rtp is None ==> session_model(msg, port).client_rtp.len() == 0,
        msg.client_rtcp is None ==> session_model(msg, port).client_rtcp.len() == 0,
{
}

} // verus!
