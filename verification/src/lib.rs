pub mod text;
pub mod clock;
pub mod headers;
pub mod rtsp_msg_handler;
pub mod rtsp_msg_parse;
pub mod rtsp_req_parse;
pub mod rtsp_session;
pub mod video_server;
pub mod client;
