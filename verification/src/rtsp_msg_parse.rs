//! A request reader that reads the sequence number as an integer and keeps
//! the `Transport` header whole, and the responses built from what it reads.

use vstd::prelude::*;
use vstd::string::StringSliceAdditionalSpecFns;
use vstd::utf8::encode_utf8;

use crate::clock::{clock_stamp, utc_now_rfc2822};
use crate::headers::{
    last_header, lines_of, numbered_line_readable, request_line_words,
    split_header, lemma_header_names_distinct,
};
use crate::rtsp_msg_handler::{
    date_line, lemma_status_line_is_one_line, public_header, server_header, session_description,
    session_header, status_ok,
};
use crate::text::{
    chars_eq, chars_of, decimal, join, join_strings, lemma_split_nonempty, parse_i32_chars,
    parse_i32, push_decimal, push_signed_decimal, signed_decimal, split_chars, string_of,
    string_views, views, contains, split, lemma_decimal_reads_back, is_digit, lemma_no_cr_no_crlf,
    lemma_concat_no_crlf, lemma_parse_i32_of_text, lemma_join_head, lemma_split_crlf_head,
};

verus! {

broadcast use vstd::string::group_string_axioms;

/// The RTSP methods that the reader recognises.
#[derive(Clone, Copy, Debug, PartialEq, Eq, Structural)]
pub enum RtspCommand {
    Options,
    Describe,
    Setup,
    Play,
    Teardown,
}

/// A message type that can be read from raw text and answered.
pub trait RawMessage: Sized {
    /// The raw texts that can be read without fault.
    spec fn parsable(raw: Seq<char>) -> bool;

    /// The messages that carry every header their response needs.
    spec fn respondable(&self) -> bool;

    /// Reads a message from the raw text of an RTSP request.
    fn parse_as_rtsp(raw: String) -> (r: Option<Self>)
        requires
            Self::parsable(raw@),
    ;

    /// The text of the response to the message, if it has one.
    fn response(&self) -> (r: Option<String>)
        requires
            self.respondable(),
    ;
}

/// An RTSP request as this reader reads it.
#[derive(Debug)]
pub struct RtspRequest {
    pub command: Option<RtspCommand>,
    pub content_base: Option<String>,
    pub cseq: Option<i32>,
    pub session: Option<String>,
    pub transport: Option<String>,
}

/// The mathematical value of an [`RtspRequest`].
pub struct RtspRequestModel {
    pub command: Option<RtspCommand>,
    pub content_base: Option<Seq<char>>,
    pub cseq: Option<i32>,
    pub session: Option<Seq<char>>,
    pub transport: Option<Seq<char>>,
}

impl View for RtspRequest {
    type V = RtspRequestModel;

    open spec fn view(&self) -> RtspRequestModel {
        RtspRequestModel {
            command: self.command,
            content_base: self.content_base.deep_view(),
            cseq: self.cseq,
            session: self.session.deep_view(),
            transport: self.transport.deep_view(),
        }
    }
}

/// The command named by the first word of the request line.
pub open spec fn command_of(word: Seq<char>) -> Option<RtspCommand> {
    if word == "OPTIONS"@ {
        Some(RtspCommand::Options)
    } else if word == "DESCRIBE"@ {
        Some(RtspCommand::Describe)
    } else if word == "SETUP"@ {
        Some(RtspCommand::Setup)
    } else if word == "PLAY"@ {
        Some(RtspCommand::Play)
    } else if word == "TEARDOWN"@ {
        Some(RtspCommand::Teardown)
    } else {
        None
    }
}

/// The value of the last `key` header among `lines`, or the empty text.
pub open spec fn header_or_empty(lines: Seq<Seq<char>>, key: Seq<char>) -> Seq<char> {
    match last_header(lines, key) {
        Some(v) => v,
        None => Seq::empty(),
    }
}

/// The sequence number of the last `CSeq` header among `lines`, or zero.
pub open spec fn sequence_number(lines: Seq<Seq<char>>) -> i32 {
    match last_header(lines, "CSeq"@) {
        Some(v) => parse_i32(v)->0,
        None => 0,
    }
}

/// The raw requests that can be read without fault: the request line has at
/// least two words, and every `CSeq`, `Transport` or `Session` line has a
/// value, a `CSeq` value being a number in the range of `i32`.
pub open spec fn request_parsable(raw: Seq<char>) -> bool {
    &&& request_line_words(raw).len() >= 2
    &&& forall|i: int|
        0 <= i < lines_of(raw).len() ==> numbered_line_readable(#[trigger] lines_of(raw)[i])
}

/// The request read from a raw text.
pub open spec fn request_model(raw: Seq<char>) -> RtspRequestModel {
    let words = request_line_words(raw);
    let lines = lines_of(raw);
    RtspRequestModel {
        command: command_of(words[0]),
        content_base: Some(words[1]),
        cseq: Some(sequence_number(lines)),
        session: Some(header_or_empty(lines, "Session"@)),
        transport: Some(header_or_empty(lines, "Transport"@)),
    }
}

/// The command named by a word of the request line.
fn command_of_word(word: &Vec<char>) -> (r: Option<RtspCommand>)
    ensures
        r == command_of(word@),
{
    if chars_eq(word, &chars_of("OPTIONS")) {
        Some(RtspCommand::Options)
    } else if chars_eq(word, &chars_of("DESCRIBE")) {
        Some(RtspCommand::Describe)
    } else if chars_eq(word, &chars_of("SETUP")) {
        Some(RtspCommand::Setup)
    } else if chars_eq(word, &chars_of("PLAY")) {
        Some(RtspCommand::Play)
    } else if chars_eq(word, &chars_of("TEARDOWN")) {
        Some(RtspCommand::Teardown)
    } else {
        None
    }
}

/// Reads a request from the characters of a raw text; `None` when the text
/// cannot be read without fault.
pub fn read_request(raw: &Vec<char>) -> (r: Option<RtspRequest>)
    ensures
        r is Some <==> request_parsable(raw@),
        r matches Some(q) ==> q@ == request_model(raw@),
{
    let crlf = chars_of("\r\n");
    let space = chars_of(" ");
    proof {
        reveal_strlit("\r\n");
        reveal_strlit(" ");
    }
    let lines = split_chars(raw, &crlf);
    let ghost all = lines_of(raw@);
    proof {
        lemma_split_nonempty(raw@, crlf@);
    }
    let words = split_chars(&lines[0], &space);
    if words.len() < 2 {
        return None;
    }
    let command = command_of_word(&words[0]);
    proof {
        assert(words[1]@ =~= words[1]@.subrange(0, words[1]@.len() as int));
    }
    let content_base = string_of(&words[1], 0, words[1].len());
    let cseq_key = chars_of("CSeq");
    let transport_key = chars_of("Transport");
    let session_key = chars_of("Session");
    let mut cseq: i32 = 0;
    let mut session = String::new();
    let mut transport = String::new();
    let mut i: usize = 0;
    while i < lines.len()
        invariant
            views(lines@) == all,
            all == lines_of(raw@),
            cseq_key@ == "CSeq"@,
            transport_key@ == "Transport"@,
            session_key@ == "Session"@,
            i <= lines.len(),
            forall|j: int| 0 <= j < i ==> numbered_line_readable(#[trigger] all[j]),
            cseq == sequence_number(all.take(i as int)),
            session@ == header_or_empty(all.take(i as int), "Session"@),
            transport@ == header_or_empty(all.take(i as int), "Transport"@),
        decreases lines.len() - i,
    {
        let (key, value) = split_header(&lines[i]);
        proof {
            lemma_header_names_distinct();
            assert(all.take(i + 1).drop_last() =~= all.take(i as int));
            assert(all.take(i + 1).last() == all[i as int]);
            assert(lines[i as int]@ == all[i as int]);
        }
        if chars_eq(&key, &cseq_key) {
            match value {
                None => {
                    assert(!numbered_line_readable(all[i as int]));
                    return None;
                },
                Some(v) => match parse_i32_chars(&v) {
                    None => {
                        assert(!numbered_line_readable(all[i as int]));
                        return None;
                    },
                    Some(n) => {
                        cseq = n;
                    },
                },
            }
        } else if chars_eq(&key, &transport_key) {
            match value {
                None => {
                    assert(!numbered_line_readable(all[i as int]));
                    return None;
                },
                Some(v) => {
                    proof {
                        assert(v@ =~= v@.subrange(0, v@.len() as int));
                    }
                    transport = string_of(&v, 0, v.len());
                },
            }
        } else if chars_eq(&key, &session_key) {
            match value {
                None => {
                    assert(!numbered_line_readable(all[i as int]));
                    return None;
                },
                Some(v) => {
                    proof {
                        assert(v@ =~= v@.subrange(0, v@.len() as int));
                    }
                    session = string_of(&v, 0, v.len());
                },
            }
        }
        assert(numbered_line_readable(all[i as int]));
        i = i + 1;
    }
    assert(all.take(lines.len() as int) =~= all);
    Some(
        RtspRequest {
            command,
            content_base: Some(content_base),
            cseq: Some(cseq),
            session: Some(session),
            transport: Some(transport),
        },
    )
}

/// The `CSeq` header that echoes the request's sequence number.
pub open spec fn cseq_header(q: RtspRequestModel) -> Seq<char> {
    "CSeq: "@ + signed_decimal(q.cseq->0 as int)
}

/// The header lines of the response to `q`, with `date` as the date header.
pub open spec fn response_lines(q: RtspRequestModel, date: Seq<char>) -> Seq<Seq<char>> {
    match q.command {
        Some(RtspCommand::Options) => seq![
            status_ok(),
            cseq_header(q),
            public_header(),
            server_header(),
            date,
            "\r\n"@,
        ],
        Some(RtspCommand::Describe) => seq![
            status_ok(),
            cseq_header(q),
            "Content-Type: "@ + "application/sdp"@,
            "Content-Base: "@ + q.content_base->0,
            server_header(),
            date,
            "Content-Length: "@ + decimal(encode_utf8(session_description()).len()) + "\r\n"@,
            session_description(),
        ],
        Some(RtspCommand::Setup) => seq![
            status_ok(),
            cseq_header(q),
            "Transport: RTP/AVP;unicast;client_port=10500-10501;server_port=5700-5701;mode=\"PLAY\""@,
            server_header(),
            session_header(),
            date,
            "\r\n"@,
        ],
        Some(RtspCommand::Play) => seq![
            cseq_header(q),
            "RTP-Info: url=: "@ + q.content_base->0 + "stream=0;seq=1;rtptime=0"@,
            "Range: npt=0-"@,
            server_header(),
            session_header(),
            date,
            "\r\n"@,
        ],
        _ => Seq::empty(),
    }
}

/// The response to `q` with `date` as the date header: its header lines
/// joined by CRLF, empty for `TEARDOWN` and for a request without a command.
pub open spec fn response_text(q: RtspRequestModel, date: Seq<char>) -> Seq<char> {
    join(response_lines(q, date), "\r\n"@)
}

/// The request carries every header its response quotes.
pub open spec fn respondable_model(q: RtspRequestModel) -> bool {
    match q.command {
        Some(RtspCommand::Options) => q.cseq is Some,
        Some(RtspCommand::Describe) => q.cseq is Some && q.content_base is Some,
        Some(RtspCommand::Setup) => q.cseq is Some,
        Some(RtspCommand::Play) => q.cseq is Some && q.content_base is Some,
        _ => true,
    }
}

/// A request lacks a header that its response quotes exactly when it is not
/// respondable: a command other than `TEARDOWN` without a sequence number, or
/// `DESCRIBE` or `PLAY` without a content base.
pub proof fn lemma_respondable_exactly(q: RtspRequestModel)
    ensures
        !respondable_model(q) <==> {
            ||| (q.command is Some && q.command != Some(RtspCommand::Teardown) && q.cseq is None)
            ||| ((q.command == Some(RtspCommand::Describe) || q.command == Some(
                RtspCommand::Play,
            )) && q.content_base is None)
        },
{
}

/// A string made of `prefix` followed by `value`.
fn prefixed(prefix: &str, value: &str) -> (r: String)
    ensures
        r@ == prefix@ + value@,
{
    let mut r = prefix.to_owned();
    r.append(value);
    r
}

/// The date header for the current time.
fn rtsp_date_time() -> (r: String)
    ensures
        exists|stamp: Seq<char>| clock_stamp(stamp) && r@ == #[trigger] date_line(stamp),
{
    let stamp = utc_now_rfc2822();
    let r = prefixed("Date: ", stamp.as_str());
    assert(r@ == date_line(stamp@));
    r
}

/// The `CSeq` header for a sequence number.
fn cseq_line(n: i32) -> (r: String)
    ensures
        r@ == "CSeq: "@ + signed_decimal(n as int),
{
    let mut r = "CSeq: ".to_owned();
    push_signed_decimal(&mut r, n);
    r
}

/// The `Session` header.
fn session_line() -> (r: String)
    ensures
        r@ == session_header(),
{
    let session_id: u64 = 1;
    let mut r = "Session: ".to_owned();
    push_decimal(&mut r, session_id);
    r
}

impl RtspRequest {
    /// Whether the request carries every header its response quotes.
    pub fn has_response_headers(&self) -> (r: bool)
        ensures
            r == respondable_model(self@),
    {
        match self.command {
            Some(RtspCommand::Options) => self.cseq.is_some(),
            Some(RtspCommand::Describe) => self.cseq.is_some() && self.content_base.is_some(),
            Some(RtspCommand::Setup) => self.cseq.is_some(),
            Some(RtspCommand::Play) => self.cseq.is_some() && self.content_base.is_some(),
            _ => true,
        }
    }

    /// The response to the request, with `date` as its date header.
    pub fn response_with_date(&self, date: &str) -> (r: String)
        requires
            respondable_model(self@),
        ensures
            r@ == response_text(self@, date@),
    {
        let ghost q = self@;
        let mut lines: Vec<String> = Vec::new();
        match self.command {
            Some(RtspCommand::Options) => {
                lines.push("RTSP/1.0 200 OK".to_owned());
                lines.push(cseq_line(self.cseq.unwrap()));
                lines.push("Public: OPTIONS, DESCRIBE, PLAY, SETUP, TEARDOWN".to_owned());
                lines.push("Server: Rust RTSP server".to_owned());
                lines.push(date.to_owned());
                lines.push("\r\n".to_owned());
                assert(string_views(lines@) =~= response_lines(q, date@));
            },
            Some(RtspCommand::Describe) => {
                let base = self.content_base.as_ref().unwrap();
                let sdp = "v=0\r\ns=Rust RTSP server\r\nt=0 0\r\nm=video 0 RTP/AVP 96\r\na=rtpmap:96 H264/90000";
                proof {
                    reveal_strlit(
                        "v=0\r\ns=Rust RTSP server\r\nt=0 0\r\nm=video 0 RTP/AVP 96\r\na=rtpmap:96 H264/90000",
                    );
                    assert(vstd::string::is_ascii(sdp));
                    assert(sdp.spec_bytes().len() == sdp@.len());
                }
                let sdp_byte_count = sdp.len();
                lines.push("RTSP/1.0 200 OK".to_owned());
                lines.push(cseq_line(self.cseq.unwrap()));
                lines.push(prefixed("Content-Type: ", "application/sdp"));
                lines.push(prefixed("Content-Base: ", base.as_str()));
                lines.push("Server: Rust RTSP server".to_owned());
                lines.push(date.to_owned());
                let mut length = "Content-Length: ".to_owned();
                push_decimal(&mut length, sdp_byte_count as u64);
                length.append("\r\n");
                lines.push(length);
                lines.push(sdp.to_owned());
                assert(string_views(lines@) =~= response_lines(q, date@));
            },
            Some(RtspCommand::Setup) => {
                lines.push("RTSP/1.0 200 OK".to_owned());
                lines.push(cseq_line(self.cseq.unwrap()));
                lines.push(
                    "Transport: RTP/AVP;unicast;client_port=10500-10501;server_port=5700-5701;mode=\"PLAY\"".to_owned(),
                );
                lines.push("Server: Rust RTSP server".to_owned());
                lines.push(session_line());
                lines.push(date.to_owned());
                lines.push("\r\n".to_owned());
                assert(string_views(lines@) =~= response_lines(q, date@));
            },
            Some(RtspCommand::Play) => {
                let base = self.content_base.as_ref().unwrap();
                lines.push(cseq_line(self.cseq.unwrap()));
                let mut info = "RTP-Info: url=: ".to_owned();
                info.append(base.as_str());
                info.append("stream=0;seq=1;rtptime=0");
                lines.push(info);
                lines.push("Range: npt=0-".to_owned());
                lines.push("Server: Rust RTSP server".to_owned());
                lines.push(session_line());
                lines.push(date.to_owned());
                lines.push("\r\n".to_owned());
                assert(string_views(lines@) =~= response_lines(q, date@));
            },
            _ => {
                assert(string_views(lines@) =~= response_lines(q, date@));
            },
        }
        join_strings(&lines, "\r\n")
    }
}

impl RawMessage for RtspRequest {
    open spec fn parsable(raw: Seq<char>) -> bool {
        request_parsable(raw)
    }

    open spec fn respondable(&self) -> bool {
        respondable_model(self@)
    }

    fn parse_as_rtsp(raw: String) -> (r: Option<RtspRequest>)
        ensures
            r matches Some(q) && q@ == request_model(raw@),
    {
        read_request(&chars_of(raw.as_str()))
    }

    /// The response to the request, dated with the current time; there is
    /// always one.
    fn response(&self) -> (r: Option<String>)
        ensures
            r matches Some(text) && exists|stamp: Seq<char>|
                clock_stamp(stamp) && response_text(self@, #[trigger] date_line(stamp))
                    == text@,
    {
        let date = rtsp_date_time();
        Some(self.response_with_date(date.as_str()))
    }
}

/// The text of a sequence number holds no CRLF.
proof fn lemma_cseq_line_is_one_line(n: i32)
    ensures
        !contains("CSeq: "@ + signed_decimal(n as int), "\r\n"@),
{
    reveal_strlit("CSeq: ");
    let digits = if n < 0 { decimal((-n) as nat) } else { decimal(n as nat) };
    lemma_decimal_reads_back(if n < 0 { (-n) as nat } else { n as nat });
    assert forall|i: int| 0 <= i < digits.len() implies digits[i] != '\r' by {
        assert(is_digit(digits[i]));
    }
    lemma_no_cr_no_crlf(digits);
    let head = if n < 0 { "CSeq: "@ + seq!['-'] } else { "CSeq: "@ };
    assert("CSeq: "@ + signed_decimal(n as int) =~= head + digits);
    lemma_concat_no_crlf(head, digits);
}

/// The response to an `OPTIONS`, `DESCRIBE` or `SETUP` request starts with
/// the status line and, as its second line, gives the request's sequence
/// number, whose text reads back as that number; whatever the date.
pub proof fn lemma_response_echoes_sequence_number(q: RtspRequestModel, date: Seq<char>)
    requires
        q.cseq is Some,
        q.command == Some(RtspCommand::Options) || q.command == Some(RtspCommand::Describe)
            || q.command == Some(RtspCommand::Setup),
    ensures
        split(response_text(q, date), "\r\n"@).len() >= 2,
        split(response_text(q, date), "\r\n"@)[0] == status_ok(),
        split(response_text(q, date), "\r\n"@)[1] == "CSeq: "@ + signed_decimal(q.cseq->0 as int),
        parse_i32(signed_decimal(q.cseq->0 as int)) == q.cseq,
{
    let crlf = "\r\n"@;
    let first = status_ok();
    let second = cseq_header(q);
    lemma_cseq_line_is_one_line(q.cseq->0);
    lemma_status_line_is_one_line();
    lemma_parse_i32_of_text(q.cseq->0);
    let all = response_lines(q, date);
    assert(all.len() >= 6);
    assert(all =~= seq![first] + all.drop_first());
    assert(all.drop_first() =~= seq![second] + all.skip(2));
    lemma_join_head(first, all.drop_first(), crlf);
    lemma_join_head(second, all.skip(2), crlf);
    let rest = join(all.skip(2), crlf);
    lemma_split_crlf_head(first, second + crlf + rest);
    lemma_split_crlf_head(second, rest);
}


/// The first word of the request line decides the command: `OPTIONS`,
/// `DESCRIBE`, `SETUP`, `PLAY` and `TEARDOWN` are read as those commands, and
/// any other word as no command.
pub proof fn lemma_command_from_first_word(raw: Seq<char>)
    ensures
        request_line_words(raw)[0] == "OPTIONS"@ ==> request_model(raw).command == Some(
            RtspCommand::Options,
        ),
        request_line_words(raw)[0] == "DESCRIBE"@ ==> request_model(raw).command == Some(
            RtspCommand::Describe,
        ),
        request_line_words(raw)[0] == "SETUP"@ ==> request_model(raw).command == Some(
            RtspCommand::Setup,
        ),
        request_line_words(raw)[0] == "PLAY"@ ==> request_model(raw).command == Some(
            RtspCommand::Play,
        ),
        request_line_words(raw)[0] == "TEARDOWN"@ ==> request_model(raw).command == Some(
            RtspCommand::Teardown,
        ),
        request_line_words(raw)[0] != "OPTIONS"@ && request_line_words(raw)[0] != "DESCRIBE"@
            && request_line_words(raw)[0] != "SETUP"@ && request_line_words(raw)[0] != "PLAY"@
            && request_line_words(raw)[0] != "TEARDOWN"@ ==> request_model(raw).command is None,
{
    reveal_strlit("OPTIONS");
    reveal_strlit("DESCRIBE");
    reveal_strlit("SETUP");
    reveal_strlit("PLAY");
    reveal_strlit("TEARDOWN");
    assert("OPTIONS"@.len() == 7);
    assert("DESCRIBE"@.len() == 8);
    assert("SETUP"@.len() == 5);
    assert("PLAY"@.len() == 4);
    assert("TEARDOWN"@.len() == 8);
    assert("DESCRIBE"@[0] != "TEARDOWN"@[0]);
}

} // verus!
