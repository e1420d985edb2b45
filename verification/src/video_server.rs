//! The media pipeline that streams a test video to a client.

use vstd::prelude::*;

use crate::text::{contains, lemma_occurs_middle};

verus! {

broadcast use vstd::string::group_string_axioms;

/// The test pattern that the stream shows.
pub open spec fn video_pattern() -> Seq<char> {
    "ball"@
}

/// The GStreamer launch description of the pipeline that sends the test
/// video over RTP to `remote_host` on the client's RTP port, sends RTCP to
/// the client's RTCP port and receives RTCP on the server's port.
pub open spec fn pipeline_text(
    remote_host: Seq<char>,
    client_rtp_port: Seq<char>,
    client_rtcp_port: Seq<char>,
    server_rtcp_port: Seq<char>,
) -> Seq<char> {
    "rtpbin name=rtpman autoremove=true \n               videotestsrc pattern="@ + video_pattern() + " ! videoconvert ! x264enc ! rtph264pay ! rtpman.send_rtp_sink_0 \n               rtpman.send_rtp_src_0 ! udpsink name=rtpudpsink host="@ + remote_host
        + " port="@ + client_rtp_port + " \n               rtpman.send_rtcp_src_0 ! udpsink name=rtcpudpsink  host="@ + remote_host + " port="@
        + client_rtcp_port + " sync=false async=false \n               udpsrc name=rtcpudpsrc port="@ + server_rtcp_port + " ! rtpman.recv_rtcp_sink_0"@
}

/// The GStreamer launch description of the RTP pipeline for one client.
pub fn rtp_pipeline_description(
    remote_host: &str,
    client_rtp_port: &str,
    client_rtcp_port: &str,
    server_rtcp_port: &str,
) -> (r: String)
    ensures
        r@ == pipeline_text(remote_host@, client_rtp_port@, client_rtcp_port@, server_rtcp_port@),
{
    let video_pattern = "ball";
    let mut r = "rtpbin name=rtpman autoremove=true \n               videotestsrc pattern=".to_owned();
    r.append(video_pattern);
    r.append(" ! videoconvert ! x264enc ! rtph264pay ! rtpman.send_rtp_sink_0 \n               rtpman.send_rtp_src_0 ! udpsink name=rtpudpsink host=");
    r.append(remote_host);
    r.append(" port=");
    r.append(client_rtp_port);
    r.append(" \n               rtpman.send_rtcp_src_0 ! udpsink name=rtcpudpsink  host=");
    r.append(remote_host);
    r.append(" port=");
    r.append(client_rtcp_port);
    r.append(" sync=false async=false \n               udpsrc name=rtcpudpsrc port=");
    r.append(server_rtcp_port);
    r.append(" ! rtpman.recv_rtcp_sink_0");
    r
}


/// The pipeline sends RTP to the client's whole host name on its RTP port,
/// sends RTCP to the same host on its RTCP port, and receives RTCP on the
/// server's port: the description holds each of these addresses as written.
pub proof fn lemma_pipeline_addresses(
    remote_host: Seq<char>,
    client_rtp_port: Seq<char>,
    client_rtcp_port: Seq<char>,
    server_rtcp_port: Seq<char>,
)
    ensures
        contains(
            pipeline_text(remote_host, client_rtp_port, client_rtcp_port, server_rtcp_port),
            "udpsink name=rtpudpsink host="@ + remote_host + " port="@ + client_rtp_port + " "@,
        ),
        contains(
            pipeline_text(remote_host, client_rtp_port, client_rtcp_port, server_rtcp_port),
            "udpsink name=rtcpudpsink  host="@ + remote_host + " port="@ + client_rtcp_port + " "@,
        ),
        contains(
            pipeline_text(remote_host, client_rtp_port, client_rtcp_port, server_rtcp_port),
            "udpsrc name=rtcpudpsrc port="@ + server_rtcp_port + " "@,
        ),
{
    reveal_strlit("rtpbin name=rtpman autoremove=true \n               videotestsrc pattern=");
    reveal_strlit(" ! videoconvert ! x264enc ! rtph264pay ! rtpman.send_rtp_sink_0 \n               rtpman.send_rtp_src_0 ! udpsink name=rtpudpsink host=");
    reveal_strlit(" port=");
    reveal_strlit(" \n               rtpman.send_rtcp_src_0 ! udpsink name=rtcpudpsink  host=");
    reveal_strlit(" sync=false async=false \n               udpsrc name=rtcpudpsrc port=");
    reveal_strlit(" ! rtpman.recv_rtcp_sink_0");
    reveal_strlit(" ! videoconvert ! x264enc ! rtph264pay ! rtpman.send_rtp_sink_0 \n               rtpman.send_rtp_src_0 ! ");
    reveal_strlit("\n               rtpman.send_rtcp_src_0 ! ");
    reveal_strlit("sync=false async=false \n               ");
    reveal_strlit("! rtpman.recv_rtcp_sink_0");
    reveal_strlit("udpsink name=rtpudpsink host=");
    reveal_strlit("udpsink name=rtcpudpsink  host=");
    reveal_strlit("udpsrc name=rtcpudpsrc port=");
    reveal_strlit(" ");
    reveal_strlit("ball");
    let h = remote_host;
    let rtp = client_rtp_port;
    let rtcp = client_rtcp_port;
    let srv = server_rtcp_port;
    let s = pipeline_text(h, rtp, rtcp, srv);
    let sp = " "@;
    let a0 = "rtpbin name=rtpman autoremove=true \n               videotestsrc pattern="@ + video_pattern() + " ! videoconvert ! x264enc ! rtph264pay ! rtpman.send_rtp_sink_0 \n               rtpman.send_rtp_src_0 ! "@;
    let sink1 = "udpsink name=rtpudpsink host="@;
    let sink2 = "udpsink name=rtcpudpsink  host="@;
    let src = "udpsrc name=rtcpudpsrc port="@;
    let cmid = "\n               rtpman.send_rtcp_src_0 ! "@;
    let dmid = "sync=false async=false \n               "@;
    let erest = "! rtpman.recv_rtcp_sink_0"@;
    assert(" ! videoconvert ! x264enc ! rtph264pay ! rtpman.send_rtp_sink_0 \n               rtpman.send_rtp_src_0 ! udpsink name=rtpudpsink host="@ =~= " ! videoconvert ! x264enc ! rtph264pay ! rtpman.send_rtp_sink_0 \n               rtpman.send_rtp_src_0 ! "@ + sink1);
    assert(" \n               rtpman.send_rtcp_src_0 ! udpsink name=rtcpudpsink  host="@ =~= sp + cmid + sink2);
    assert(" sync=false async=false \n               udpsrc name=rtcpudpsrc port="@ =~= sp + dmid + src);
    assert(" ! rtpman.recv_rtcp_sink_0"@ =~= sp + erest);
    let p1 = sink1 + h + " port="@ + rtp + sp;
    let p2 = sink2 + h + " port="@ + rtcp + sp;
    let p3 = src + srv + sp;
    assert(s =~= a0 + p1 + (cmid + p2 + (dmid + p3 + erest)));
    lemma_occurs_middle(a0, p1, cmid + p2 + (dmid + p3 + erest));
    assert(s =~= (a0 + p1 + cmid) + p2 + (dmid + p3 + erest));
    lemma_occurs_middle(a0 + p1 + cmid, p2, dmid + p3 + erest);
    assert(s =~= (a0 + p1 + cmid + p2 + dmid) + p3 + erest);
    lemma_occurs_middle(a0 + p1 + cmid + p2 + dmid, p3, erest);
}

} // verus!
