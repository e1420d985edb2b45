use rust_rtsp_server::video_server::rtp_pipeline_description;

#[test]
fn pipeline_names_hosts_and_ports() {
    let p = rtp_pipeline_description("10.0.0.2", "5000", "5001", "12000");
    let expected = "rtpbin name=rtpman autoremove=true \n               videotestsrc pattern=ball ! videoconvert ! x264enc ! rtph264pay ! rtpman.send_rtp_sink_0 \n               rtpman.send_rtp_src_0 ! udpsink name=rtpudpsink host=10.0.0.2 port=5000 \n               rtpman.send_rtcp_src_0 ! udpsink name=rtcpudpsink  host=10.0.0.2 port=5001 sync=false async=false \n               udpsrc name=rtcpudpsrc port=12000 ! rtpman.recv_rtcp_sink_0";
    assert_eq!(p, expected);
}
