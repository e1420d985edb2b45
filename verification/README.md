# rust_rtsp_server

A small RTSP server: it reads RTSP requests from clients, answers them, and
streams a test video over RTP with GStreamer once a client has set up a
session and asked to play.

- `src/` is the verified library (Verus):
  - `text` — searching, splitting and joining character sequences, decimal
    rendering and parsing, with exact specifications;
  - `headers` — the layout of a request's text (lines, request line, headers);
  - `rtsp_msg_handler` — the request reader and the responses of the server;
  - `rtsp_msg_parse` — a reader that reads the sequence number as an integer
    and keeps the `Transport` header whole, with its responses;
  - `rtsp_req_parse` — a reader that recognises `OPTIONS` requests only;
  - `rtsp_session` — the streaming session recorded by `SETUP`;
  - `client` — the per-connection state machine that decides what to do next;
  - `video_server` — the GStreamer launch description of the RTP pipeline;
  - `clock` — the current time, read through chrono.
- `app/` is the program around it: argument handling, sockets, threads and
  the GStreamer pipeline.
