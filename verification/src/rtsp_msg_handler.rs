//! RTSP requests as the server reads them, and the responses it sends back.
//!
//! A request is read from its raw text: the request line gives the command
//! and the content base, the header lines give the `CSeq`, the `Session` and
//! the client ports of the `Transport` header. A response is a `200 OK` made
//! of header lines joined by CRLF.

use vstd::prelude::*;
use vstd::string::StringSliceAdditionalSpecFns;
use vstd::utf8::{encode_utf8, is_ascii_chars, is_ascii_chars_encode_utf8};

use crate::clock::{clock_stamp, utc_now_rfc2822};
use crate::headers::{
    lemma_header_names_distinct, header_key, header_value, last_header, lemma_last_header_from_line, lines_of,
    request_line_words,
};
use crate::text::{
    decimal, join, join_strings, lemma_concat_no_crlf, lemma_join_head, lemma_no_cr_no_crlf,
    lemma_pieces_are_parts, lemma_pieces_lack_separator, lemma_split_crlf_head,
    lemma_subrange_lacks, push_decimal, string_views, chars_eq, find_from, no_line_break, one_line,
    lemma_no_line_break_concat, lemma_decimal_one_line, lemma_blank_line_after, chars_of, contains, contains_chars, lemma_split_nonempty, split, split_chars,
    string_of, views, lacks_char, all_digits, lemma_split_head, lemma_split_whole,
    lemma_digits_lack, lemma_first_piece_prefix, lemma_occurs_contains,
};

verus! {

broadcast use vstd::string::group_string_axioms;

/// The RTSP methods that the server understands.
#[derive(Clone, Copy, Debug, PartialEq, Eq, Structural)]
pub enum RtspCommand {
    Options,
    Describe,
    Setup,
    Play,
    Teardown,
}

/// A message type that can be read from the raw text of an RTSP request.
pub trait RtspParsable: Sized {
    /// The raw texts that can be read without fault.
    spec fn parsable(raw: Seq<char>) -> bool;

    /// Reads a message from the raw text of an RTSP request.
    fn parse_as_rtsp(raw: String) -> (r: Option<Self>)
        requires
            Self::parsable(raw@),
    ;
}

/// A message type that the server can answer.
pub trait RtspResponse {
    /// The messages that carry every header their response needs.
    spec fn respondable(&self) -> bool;

    /// The text of the response to the message, if it has one.
    fn response(&self) -> (r: Option<String>)
        requires
            self.respondable(),
    ;
}

/// An RTSP request as the server reads it.
#[derive(Debug)]
pub struct RtspMessage {
    pub command: Option<RtspCommand>,
    pub content_base: Option<String>,
    pub cseq: Option<String>,
    pub session: Option<String>,
    pub client_rtp: Option<String>,
    pub client_rtcp: Option<String>,
}

/// The mathematical value of an [`RtspMessage`].
pub struct RtspMessageModel {
    pub command: Option<RtspCommand>,
    pub content_base: Option<Seq<char>>,
    pub cseq: Option<Seq<char>>,
    pub session: Option<Seq<char>>,
    pub client_rtp: Option<Seq<char>>,
    pub client_rtcp: Option<Seq<char>>,
}

impl View for RtspMessage {
    type V = RtspMessageModel;

    open spec fn view(&self) -> RtspMessageModel {
        RtspMessageModel {
            command: self.command,
            content_base: self.content_base.deep_view(),
            cseq: self.cseq.deep_view(),
            session: self.session.deep_view(),
            client_rtp: self.client_rtp.deep_view(),
            client_rtcp: self.client_rtcp.deep_view(),
        }
    }
}

/// A copy of an optional text.
fn clone_text(t: &Option<String>) -> (r: Option<String>)
    ensures
        r.deep_view() == t.deep_view(),
{
    match t {
        Some(v) => Some(v.clone()),
        None => None,
    }
}

impl Clone for RtspMessage {
    fn clone(&self) -> (r: Self)
        ensures
            r@ == self@,
    {
        RtspMessage {
            command: self.command,
            content_base: clone_text(&self.content_base),
            cseq: clone_text(&self.cseq),
            session: clone_text(&self.session),
            client_rtp: clone_text(&self.client_rtp),
            client_rtcp: clone_text(&self.client_rtcp),
        }
    }
}

// ---------------------------------------------------------------------------
// Reading a request
// ---------------------------------------------------------------------------

/// The command named by the first word of the request line.
pub open spec fn command_of(word: Seq<char>) -> Option<RtspCommand> {
    if word == "OPTIONS"@ {
        Some(RtspCommand::Options)
    } else if word == "DESCRIBE"@ {
        Some(RtspCommand::Describe)
    } else if word == "SETUP"@ {
        Some(RtspCommand::Setup)
    } else if word == "PLAY"@ {
        Some(RtspCommand::Play)
    } else if word == "TEARDOWN"@ {
        Some(RtspCommand::Teardown)
    } else {
        None
    }
}

/// The RTP and RTCP client ports of one `;`-separated item of a `Transport`
/// value, when the item names `client_port`: the text after its first `=`,
/// cut at `-`.
pub open spec fn item_ports(item: Seq<char>) -> Option<(Seq<char>, Seq<char>)> {
    if contains(item, "client_port"@) {
        let ports = split(split(item, "="@)[1], "-"@);
        Some((ports[0], ports[1]))
    } else {
        None
    }
}

/// The client ports of the last item among `items` that names them.
pub open spec fn last_item_ports(items: Seq<Seq<char>>) -> Option<(Seq<char>, Seq<char>)>
    decreases items.len(),
{
    if items.len() == 0 {
        None
    } else if item_ports(items.last()) is Some {
        item_ports(items.last())
    } else {
        last_item_ports(items.drop_last())
    }
}

/// The `;`-separated items of a `Transport` value.
pub open spec fn transport_items(value: Seq<char>) -> Seq<Seq<char>> {
    split(value, ";"@)
}

/// The client ports named last among the `Transport` lines of `lines`.
pub open spec fn last_ports(lines: Seq<Seq<char>>) -> Option<(Seq<char>, Seq<char>)>
    decreases lines.len(),
{
    if lines.len() == 0 {
        None
    } else if header_key(lines.last()) == "Transport"@ && last_item_ports(
        transport_items(header_value(lines.last())),
    ) is Some {
        last_item_ports(transport_items(header_value(lines.last())))
    } else {
        last_ports(lines.drop_last())
    }
}

/// The `;`-separated items of every `Transport` line among `lines`, in order.
pub open spec fn all_transport_items(lines: Seq<Seq<char>>) -> Seq<Seq<char>>
    decreases lines.len(),
{
    if lines.len() == 0 {
        Seq::empty()
    } else if header_key(lines.last()) == "Transport"@ {
        all_transport_items(lines.drop_last()) + transport_items(header_value(lines.last()))
    } else {
        all_transport_items(lines.drop_last())
    }
}

/// The ports named last among the items `a + b` are those named last in `b`,
/// or, when `b` names none, those named last in `a`.
pub proof fn lemma_last_item_ports_append(a: Seq<Seq<char>>, b: Seq<Seq<char>>)
    ensures
        last_item_ports(a + b) == if last_item_ports(b) is Some {
            last_item_ports(b)
        } else {
            last_item_ports(a)
        },
    decreases b.len(),
{
    if b.len() == 0 {
        assert(a + b =~= a);
    } else {
        lemma_last_item_ports_append(a, b.drop_last());
        assert((a + b).drop_last() =~= a + b.drop_last());
        assert((a + b).last() == b.last());
    }
}

/// The client ports read from a request are those of the last item naming
/// `client_port` among the items of all `Transport` lines taken in order;
/// none when no item names them.
pub proof fn lemma_ports_from_all_items(lines: Seq<Seq<char>>)
    ensures
        last_ports(lines) == last_item_ports(all_transport_items(lines)),
    decreases lines.len(),
{
    if lines.len() > 0 {
        lemma_ports_from_all_items(lines.drop_last());
        if header_key(lines.last()) == "Transport"@ {
            lemma_last_item_ports_append(
                all_transport_items(lines.drop_last()),
                transport_items(header_value(lines.last())),
            );
        }
    }
}

/// An item of a `Transport` value that names `client_port` has a value
/// after `=`, and that value holds a `-`.
pub open spec fn item_readable(item: Seq<char>) -> bool {
    contains(item, "client_port"@) ==> {
        &&& split(item, "="@).len() >= 2
        &&& split(split(item, "="@)[1], "-"@).len() >= 2
    }
}

/// A line whose header name is `CSeq`, `Transport` or `Session` has a value,
/// and every item of a `Transport` value is readable.
pub open spec fn line_readable(line: Seq<char>) -> bool {
    let key = header_key(line);
    (key == "CSeq"@ || key == "Transport"@ || key == "Session"@) ==> {
        &&& split(line, ": "@).len() >= 2
        &&& key == "Transport"@ ==> forall|j: int|
            0 <= j < transport_items(header_value(line)).len() ==> item_readable(
                #[trigger] transport_items(header_value(line))[j],
            )
    }
}

/// The raw requests that can be read without fault: the request line has at
/// least two words and every line is readable.
pub open spec fn message_parsable(raw: Seq<char>) -> bool {
    &&& request_line_words(raw).len() >= 2
    &&& forall|i: int|
        0 <= i < lines_of(raw).len() ==> line_readable(#[trigger] lines_of(raw)[i])
}

/// The message read from a raw request.
pub open spec fn message_model(raw: Seq<char>) -> RtspMessageModel {
    let words = request_line_words(raw);
    let lines = lines_of(raw);
    let ports = last_ports(lines);
    RtspMessageModel {
        command: command_of(words[0]),
        content_base: if contains(words[1], "rtsp://"@) {
            Some(words[1])
        } else {
            None
        },
        cseq: last_header(lines, "CSeq"@),
        session: last_header(lines, "Session"@),
        client_rtp: match ports {
            Some(p) => Some(p.0),
            None => None,
        },
        client_rtcp: match ports {
            Some(p) => Some(p.1),
            None => None,
        },
    }
}

/// The command named by a word of the request line.
fn command_of_word(word: &Vec<char>) -> (r: Option<RtspCommand>)
    ensures
        r == command_of(word@),
{
    if chars_eq(word, &chars_of("OPTIONS")) {
        Some(RtspCommand::Options)
    } else if chars_eq(word, &chars_of("DESCRIBE")) {
        Some(RtspCommand::Describe)
    } else if chars_eq(word, &chars_of("SETUP")) {
        Some(RtspCommand::Setup)
    } else if chars_eq(word, &chars_of("PLAY")) {
        Some(RtspCommand::Play)
    } else if chars_eq(word, &chars_of("TEARDOWN")) {
        Some(RtspCommand::Teardown)
    } else {
        None
    }
}

/// Reads the client ports from the value of a `Transport` header: `None`
/// when an item that names `client_port` is unreadable, otherwise the ports
/// named by the last item that names them.
fn transport_client_ports(value: &Vec<char>) -> (r: Option<Option<(String, String)>>)
    ensures
        r is Some <==> forall|j: int|
            0 <= j < transport_items(value@).len() ==> item_readable(
                #[trigger] transport_items(value@)[j],
            ),
        r matches Some(found) ==> match found {
            Some(p) => last_item_ports(transport_items(value@)) == Some((p.0@, p.1@)),
            None => last_item_ports(transport_items(value@)) is None,
        },
{
    let semicolon = chars_of(";");
    let equals = chars_of("=");
    let dash = chars_of("-");
    let client_port = chars_of("client_port");
    proof {
        reveal_strlit(";");
        reveal_strlit("=");
        reveal_strlit("-");
    }
    let items = split_chars(value, &semicolon);
    let ghost all = transport_items(value@);
    let mut found: Option<(String, String)> = None;
    let mut i: usize = 0;
    while i < items.len()
        invariant
            views(items@) == all,
            all == transport_items(value@),
            semicolon@ == ";"@,
            equals@ == "="@,
            dash@ == "-"@,
            client_port@ == "client_port"@,
            equals.len() > 0,
            dash.len() > 0,
            i <= items.len(),
            forall|j: int| 0 <= j < i ==> item_readable(#[trigger] all[j]),
            match found {
                Some(p) => last_item_ports(all.take(i as int)) == Some((p.0@, p.1@)),
                None => last_item_ports(all.take(i as int)) is None,
            },
        decreases items.len() - i,
    {
        let item = &items[i];
        proof {
            assert(all.take(i + 1).drop_last() =~= all.take(i as int));
            assert(all.take(i + 1).last() == item@);
        }
        if contains_chars(item, &client_port) {
            let key_val = split_chars(item, &equals);
            if key_val.len() < 2 {
                assert(!item_readable(all[i as int]));
                return None;
            }
            let ports = split_chars(&key_val[1], &dash);
            if ports.len() < 2 {
                assert(!item_readable(all[i as int]));
                return None;
            }
            let rtp = string_of(&ports[0], 0, ports[0].len());
            let rtcp = string_of(&ports[1], 0, ports[1].len());
            proof {
                assert(ports[0]@ =~= ports[0]@.subrange(0, ports[0]@.len() as int));
                assert(ports[1]@ =~= ports[1]@.subrange(0, ports[1]@.len() as int));
            }
            found = Some((rtp, rtcp));
        }
        i = i + 1;
    }
    assert(all.take(items.len() as int) =~= all);
    Some(found)
}

/// Reads a message from the characters of a raw request; `None` when the
/// request cannot be read without fault.
pub fn read_message(raw: &Vec<char>) -> (r: Option<RtspMessage>)
    ensures
        r is Some <==> message_parsable(raw@),
        r matches Some(m) ==> m@ == message_model(raw@),
{
    let crlf = chars_of("\r\n");
    let space = chars_of(" ");
    let colon = chars_of(": ");
    proof {
        reveal_strlit("\r\n");
        reveal_strlit(" ");
        reveal_strlit(": ");
        reveal_strlit("CSeq");
        reveal_strlit("Transport");
        reveal_strlit("Session");
    }
    let lines = split_chars(raw, &crlf);
    let ghost all = lines_of(raw@);
    proof {
        lemma_split_nonempty(raw@, crlf@);
    }
    let words = split_chars(&lines[0], &space);
    if words.len() < 2 {
        return None;
    }
    let command = command_of_word(&words[0]);
    let content_base = if contains_chars(&words[1], &chars_of("rtsp://")) {
        proof {
            assert(words[1]@ =~= words[1]@.subrange(0, words[1]@.len() as int));
        }
        Some(string_of(&words[1], 0, words[1].len()))
    } else {
        None
    };
    let cseq_key = chars_of("CSeq");
    let transport_key = chars_of("Transport");
    let session_key = chars_of("Session");
    let mut cseq: Option<String> = None;
    let mut session: Option<String> = None;
    let mut ports: Option<(String, String)> = None;
    let mut i: usize = 0;
    while i < lines.len()
        invariant
            views(lines@) == all,
            all == lines_of(raw@),
            colon@ == ": "@,
            colon.len() > 0,
            cseq_key@ == "CSeq"@,
            transport_key@ == "Transport"@,
            session_key@ == "Session"@,
            i <= lines.len(),
            forall|j: int| 0 <= j < i ==> line_readable(#[trigger] all[j]),
            cseq.deep_view() == last_header(all.take(i as int), "CSeq"@),
            session.deep_view() == last_header(all.take(i as int), "Session"@),
            match ports {
                Some(p) => last_ports(all.take(i as int)) == Some((p.0@, p.1@)),
                None => last_ports(all.take(i as int)) is None,
            },
        decreases lines.len() - i,
    {
        let line = &lines[i];
        let key_val = split_chars(line, &colon);
        proof {
            lemma_split_nonempty(line@, colon@);
            reveal_strlit("CSeq");
            reveal_strlit("Transport");
            reveal_strlit("Session");
            assert(all.take(i + 1).drop_last() =~= all.take(i as int));
            assert(all.take(i + 1).last() == line@);
        }
        let key = &key_val[0];
        assert(key@ == header_key(all[i as int]));
        if chars_eq(key, &cseq_key) {
            if key_val.len() < 2 {
                assert(!line_readable(all[i as int]));
                return None;
            }
            proof {
                assert(key_val[1]@ =~= key_val[1]@.subrange(0, key_val[1]@.len() as int));
            }
            cseq = Some(string_of(&key_val[1], 0, key_val[1].len()));
        } else if chars_eq(key, &transport_key) {
            if key_val.len() < 2 {
                assert(!line_readable(all[i as int]));
                return None;
            }
            assert(key_val[1]@ == header_value(all[i as int]));
            match transport_client_ports(&key_val[1]) {
                None => {
                    assert(!line_readable(all[i as int]));
                    return None;
                },
                Some(Some(p)) => {
                    ports = Some(p);
                },
                Some(None) => {},
            }
        } else if chars_eq(key, &session_key) {
            if key_val.len() < 2 {
                assert(!line_readable(all[i as int]));
                return None;
            }
            proof {
                assert(key_val[1]@ =~= key_val[1]@.subrange(0, key_val[1]@.len() as int));
            }
            session = Some(string_of(&key_val[1], 0, key_val[1].len()));
        }
        assert(line_readable(all[i as int]));
        i = i + 1;
    }
    assert(all.take(lines.len() as int) =~= all);
    let (client_rtp, client_rtcp) = match ports {
        Some(p) => (Some(p.0), Some(p.1)),
        None => (None, None),
    };
    Some(
        RtspMessage {
            command,
            content_base,
            cseq,
            session,
            client_rtp,
            client_rtcp,
        },
    )
}

impl RtspParsable for RtspMessage {
    open spec fn parsable(raw: Seq<char>) -> bool {
        message_parsable(raw)
    }

    fn parse_as_rtsp(raw: String) -> (r: Option<RtspMessage>)
        ensures
            r matches Some(m) && m@ == message_model(raw@),
    {
        read_message(&chars_of(raw.as_str()))
    }
}

// ---------------------------------------------------------------------------
// Answering a request
// ---------------------------------------------------------------------------

/// The status line of every response.
pub open spec fn status_ok() -> Seq<char> {
    "RTSP/1.0 200 OK"@
}

/// The `Server` header of every response.
pub open spec fn server_header() -> Seq<char> {
    "Server: Rust RTSP server"@
}

/// The methods announced in answer to `OPTIONS`.
pub open spec fn public_header() -> Seq<char> {
    "Public: OPTIONS, DESCRIBE, PLAY, SETUP, TEARDOWN"@
}

/// The session description sent in answer to `DESCRIBE`.
pub open spec fn session_description() -> Seq<char> {
    "v=0\r\ns=Rust RTSP server\r\nt=0 0\r\nm=video 0 RTP/AVP 96\r\na=rtpmap:96 H264/90000"@
}

/// The identifier of the one session that the server hands out.
pub open spec fn session_header() -> Seq<char> {
    "Session: "@ + decimal(1)
}

/// The date header made from a rendered time stamp.
pub open spec fn date_line(stamp: Seq<char>) -> Seq<char> {
    "Date: "@ + stamp
}

/// The date header of a clock stamp begins with `Date: `, ends with the UTC
/// offset ` +0000`, and holds no carriage return or line feed.
pub proof fn lemma_date_line_shape(stamp: Seq<char>)
    requires
        clock_stamp(stamp),
    ensures
        date_line(stamp).len() == stamp.len() + 6,
        date_line(stamp).subrange(0, 6) == "Date: "@,
        date_line(stamp).subrange(date_line(stamp).len() - 6, date_line(stamp).len() as int)
            == " +0000"@,
        forall|i: int|
            0 <= i < date_line(stamp).len() ==> #[trigger] date_line(stamp)[i] != '\r'
                && date_line(stamp)[i] != '\n',
{
    reveal_strlit("Date: ");
    reveal_strlit(" +0000");
    let line = date_line(stamp);
    let d = stamp.len() - 29;
    assert(line.subrange(0, 6) =~= "Date: "@);
    assert(line.subrange(line.len() - 6, line.len() as int) =~= stamp.subrange(
        23 + d,
        stamp.len() as int,
    ));
    assert forall|i: int| 0 <= i < line.len() implies #[trigger] line[i] != '\r' && line[i]
        != '\n' by {
        if i >= 6 {
            assert(line[i] == stamp[i - 6]);
            assert(32 <= (stamp[i - 6] as u32) <= 126);
        }
    }
}

/// The `CSeq` header that echoes the request's sequence number.
pub open spec fn cseq_header(m: RtspMessageModel) -> Seq<char> {
    "CSeq: "@ + m.cseq->0
}

/// The header lines of the response to `m`, with `date` as the date header.
pub open spec fn response_lines(m: RtspMessageModel, date: Seq<char>) -> Seq<Seq<char>> {
    match m.command {
        Some(RtspCommand::Options) => seq![
            status_ok(),
            cseq_header(m),
            public_header(),
            server_header(),
            date,
            "\r\n"@,
        ],
        Some(RtspCommand::Describe) => seq![
            status_ok(),
            cseq_header(m),
            "Content-Type: "@ + "application/sdp"@,
            "Content-Base: "@ + m.content_base->0,
            server_header(),
            date,
            "Content-Length: "@ + decimal(encode_utf8(session_description()).len()) + "\r\n"@,
            session_description(),
        ],
        Some(RtspCommand::Setup) => seq![
            status_ok(),
            cseq_header(m),
            "Transport: RTP/AVP;unicast;client_port="@ + m.client_rtp->0 + "-"@ + m.client_rtcp->0
                + ";server_port=5700-5701;mode=\"PLAY\""@,
            server_header(),
            session_header(),
            date,
            "\r\n"@,
        ],
        Some(RtspCommand::Play) => seq![
            status_ok(),
            cseq_header(m),
            "RTP-Info: url=:"@ + m.content_base->0 + "/stream=0;seq=1;rtptime=0"@,
            "Range: npt=0-"@,
            server_header(),
            session_header(),
            date,
            "\r\n"@,
        ],
        _ => Seq::empty(),
    }
}

/// The response to `m` with `date` as the date header: none for a message
/// without a command, otherwise its header lines joined by CRLF (which is
/// empty for `TEARDOWN`).
pub open spec fn response_text(m: RtspMessageModel, date: Seq<char>) -> Option<Seq<char>> {
    if m.command is None {
        None
    } else {
        Some(join(response_lines(m, date), "\r\n"@))
    }
}

/// The message carries every header its response quotes.
pub open spec fn respondable_model(m: RtspMessageModel) -> bool {
    match m.command {
        Some(RtspCommand::Options) => m.cseq is Some,
        Some(RtspCommand::Describe) => m.cseq is Some && m.content_base is Some,
        Some(RtspCommand::Setup) => m.cseq is Some && m.client_rtp is Some && m.client_rtcp
            is Some,
        Some(RtspCommand::Play) => m.cseq is Some && m.content_base is Some,
        _ => true,
    }
}

/// A message lacks a header that its response quotes exactly when it is not
/// respondable: a command other than `TEARDOWN` without `CSeq`, `DESCRIBE`
/// or `PLAY` without a content base, or `SETUP` without both client ports.
pub proof fn lemma_respondable_exactly(m: RtspMessageModel)
    ensures
        !respondable_model(m) <==> {
            ||| (m.command is Some && m.command != Some(RtspCommand::Teardown) && m.cseq is None)
            ||| ((m.command == Some(RtspCommand::Describe) || m.command == Some(
                RtspCommand::Play,
            )) && m.content_base is None)
            ||| (m.command == Some(RtspCommand::Setup) && (m.client_rtp is None
                || m.client_rtcp is None))
        },
{
}

/// A string made of `prefix` followed by `value`.
fn prefixed(prefix: &str, value: &str) -> (r: String)
    ensures
        r@ == prefix@ + value@,
{
    let mut r = prefix.to_owned();
    r.append(value);
    r
}

/// The date header for the current time.
fn rtsp_date_time() -> (r: String)
    ensures
        exists|stamp: Seq<char>| clock_stamp(stamp) && r@ == #[trigger] date_line(stamp),
{
    let stamp = utc_now_rfc2822();
    let r = prefixed("Date: ", stamp.as_str());
    assert(r@ == date_line(stamp@));
    r
}

impl RtspMessage {
    /// Whether the message carries every header its response quotes.
    pub fn has_response_headers(&self) -> (r: bool)
        ensures
            r == respondable_model(self@),
    {
        match self.command {
            Some(RtspCommand::Options) => self.cseq.is_some(),
            Some(RtspCommand::Describe) => self.cseq.is_some() && self.content_base.is_some(),
            Some(RtspCommand::Setup) => self.cseq.is_some() && self.client_rtp.is_some()
                && self.client_rtcp.is_some(),
            Some(RtspCommand::Play) => self.cseq.is_some() && self.content_base.is_some(),
            _ => true,
        }
    }

    /// The response to the message, with `date` as its date header.
    pub fn response_with_date(&self, date: &str) -> (r: Option<String>)
        requires
            respondable_model(self@),
        ensures
            r.deep_view() == response_text(self@, date@),
    {
        let ghost m = self@;
        let mut lines: Vec<String> = Vec::new();
        match self.command {
            Some(RtspCommand::Options) => {
                let cseq = self.cseq.as_ref().unwrap();
                lines.push("RTSP/1.0 200 OK".to_owned());
                lines.push(prefixed("CSeq: ", cseq.as_str()));
                lines.push("Public: OPTIONS, DESCRIBE, PLAY, SETUP, TEARDOWN".to_owned());
                lines.push("Server: Rust RTSP server".to_owned());
                lines.push(date.to_owned());
                lines.push("\r\n".to_owned());
                assert(string_views(lines@) =~= response_lines(m, date@));
            },
            Some(RtspCommand::Describe) => {
                let cseq = self.cseq.as_ref().unwrap();
                let base = self.content_base.as_ref().unwrap();
                let sdp = "v=0\r\ns=Rust RTSP server\r\nt=0 0\r\nm=video 0 RTP/AVP 96\r\na=rtpmap:96 H264/90000";
                proof {
                    reveal_strlit(
                        "v=0\r\ns=Rust RTSP server\r\nt=0 0\r\nm=video 0 RTP/AVP 96\r\na=rtpmap:96 H264/90000",
                    );
                    assert(vstd::string::is_ascii(sdp));
                    assert(sdp.spec_bytes().len() == sdp@.len());
                }
                let sdp_byte_count = sdp.len();
                lines.push("RTSP/1.0 200 OK".to_owned());
                lines.push(prefixed("CSeq: ", cseq.as_str()));
                lines.push(prefixed("Content-Type: ", "application/sdp"));
                lines.push(prefixed("Content-Base: ", base.as_str()));
                lines.push("Server: Rust RTSP server".to_owned());
                lines.push(date.to_owned());
                let mut length = "Content-Length: ".to_owned();
                push_decimal(&mut length, sdp_byte_count as u64);
                length.append("\r\n");
                lines.push(length);
                lines.push(sdp.to_owned());
                assert(string_views(lines@) =~= response_lines(m, date@));
            },
            Some(RtspCommand::Setup) => {
                let cseq = self.cseq.as_ref().unwrap();
                let rtp = self.client_rtp.as_ref().unwrap();
                let rtcp = self.client_rtcp.as_ref().unwrap();
                let session_id: u64 = 1;
                lines.push("RTSP/1.0 200 OK".to_owned());
                lines.push(prefixed("CSeq: ", cseq.as_str()));
                let mut transport = "Transport: RTP/AVP;unicast;client_port=".to_owned();
                transport.append(rtp.as_str());
                transport.append("-");
                transport.append(rtcp.as_str());
                transport.append(";server_port=5700-5701;mode=\"PLAY\"");
                lines.push(transport);
                lines.push("Server: Rust RTSP server".to_owned());
                let mut session = "Session: ".to_owned();
                push_decimal(&mut session, session_id);
                lines.push(session);
                lines.push(date.to_owned());
                lines.push("\r\n".to_owned());
                assert(string_views(lines@) =~= response_lines(m, date@));
            },
            Some(RtspCommand::Play) => {
                let cseq = self.cseq.as_ref().unwrap();
                let base = self.content_base.as_ref().unwrap();
                let session_id: u64 = 1;
                lines.push("RTSP/1.0 200 OK".to_owned());
                lines.push(prefixed("CSeq: ", cseq.as_str()));
                let mut info = "RTP-Info: url=:".to_owned();
                info.append(base.as_str());
                info.append("/stream=0;seq=1;rtptime=0");
                lines.push(info);
                lines.push("Range: npt=0-".to_owned());
                lines.push("Server: Rust RTSP server".to_owned());
                let mut session = "Session: ".to_owned();
                push_decimal(&mut session, session_id);
                lines.push(session);
                lines.push(date.to_owned());
                lines.push("\r\n".to_owned());
                assert(string_views(lines@) =~= response_lines(m, date@));
            },
            Some(RtspCommand::Teardown) => {},
            None => {
                return None;
            },
        }
        assert(string_views(lines@) =~= response_lines(m, date@));
        Some(join_strings(&lines, "\r\n"))
    }
}

impl RtspResponse for RtspMessage {
    open spec fn respondable(&self) -> bool {
        respondable_model(self@)
    }

    /// The response to the message, dated with the current time.
    fn response(&self) -> (r: Option<String>)
        ensures
            r is None <==> self.command is None,
            r matches Some(text) ==> exists|stamp: Seq<char>|
                clock_stamp(stamp) && response_text(self@, #[trigger] date_line(stamp))
                    == Some(text@),
    {
        let date = rtsp_date_time();
        self.response_with_date(date.as_str())
    }
}

// ---------------------------------------------------------------------------
// What a response says of its request
// ---------------------------------------------------------------------------

/// The status line holds no CRLF.
pub proof fn lemma_status_line_is_one_line()
    ensures
        !contains(status_ok(), "\r\n"@),
{
    reveal_strlit("RTSP/1.0 200 OK");
    lemma_no_cr_no_crlf(status_ok());
}

/// The response to a request read from raw text starts with the status line
/// `RTSP/1.0 200 OK` and, as its second line, echoes the request's `CSeq`:
/// for every command but `TEARDOWN` (whose response is empty), whatever the
/// date.
pub proof fn lemma_response_echoes_cseq(raw: Seq<char>, date: Seq<char>)
    requires
        message_parsable(raw),
        message_model(raw).cseq is Some,
        message_model(raw).command is Some,
        message_model(raw).command != Some(RtspCommand::Teardown),
    ensures
        response_text(message_model(raw), date) matches Some(t) && {
            &&& split(t, "\r\n"@).len() >= 2
            &&& split(t, "\r\n"@)[0] == status_ok()
            &&& split(t, "\r\n"@)[1] == "CSeq: "@ + message_model(raw).cseq->0
        },
{
    reveal_strlit("\r\n");
    reveal_strlit(": ");
    reveal_strlit("CSeq: ");
    let crlf = "\r\n"@;
    let m = message_model(raw);
    let lines = lines_of(raw);
    let v = m.cseq->0;
    // The sequence number comes from one line of the request.
    lemma_last_header_from_line(lines, "CSeq"@);
    let k = choose|k: int|
        0 <= k < lines.len() && header_key(#[trigger] lines[k]) == "CSeq"@ && v == header_value(
            lines[k],
        );
    assert(line_readable(lines[k]));
    // That line, and so its value, holds no CRLF.
    lemma_pieces_lack_separator(raw, crlf, 0);
    assert(!contains(lines[k], crlf));
    lemma_pieces_are_parts(lines[k], ": "@, 0);
    let (a, b) = choose|a: int, b: int|
        0 <= a <= b <= lines[k].len() && #[trigger] split(lines[k], ": "@)[1]
            == lines[k].subrange(a, b);
    lemma_subrange_lacks(lines[k], crlf, a, b);
    assert(!contains(v, crlf));
    let first = status_ok();
    let second = "CSeq: "@ + v;
    lemma_concat_no_crlf("CSeq: "@, v);
    lemma_status_line_is_one_line();
    // The response is the status line, CRLF, the CSeq line, CRLF, and more.
    let all = response_lines(m, date);
    assert(all.len() >= 6);
    assert(all[0] == first);
    assert(all[1] == second);
    assert(all =~= seq![first] + all.drop_first());
    assert(all.drop_first() =~= seq![second] + all.skip(2));
    lemma_join_head(first, all.drop_first(), crlf);
    lemma_join_head(second, all.skip(2), crlf);
    let rest = join(all.skip(2), crlf);
    assert(join(all, crlf) == first + crlf + (second + crlf + rest));
    lemma_split_crlf_head(first, second + crlf + rest);
    lemma_split_crlf_head(second, rest);
    assert(first + crlf + (second + crlf + rest) =~= first + crlf + (second + crlf + rest));
}

/// The fields that a response quotes hold no line break.
pub open spec fn quoted_fields_one_line(m: RtspMessageModel) -> bool {
    &&& (m.cseq matches Some(v) ==> no_line_break(v))
    &&& (m.content_base matches Some(v) ==> no_line_break(v))
    &&& (m.client_rtp matches Some(v) ==> no_line_break(v))
    &&& (m.client_rtcp matches Some(v) ==> no_line_break(v))
}

/// The fixed texts of the response lines hold no line break.
proof fn lemma_fixed_texts_one_line()
    ensures
        one_line(status_ok()),
        one_line(public_header()),
        one_line(server_header()),
        one_line("Content-Type: "@ + "application/sdp"@),
        one_line("Range: npt=0-"@),
        one_line("CSeq: "@),
        one_line("Content-Base: "@),
        one_line("Content-Length: "@),
        one_line("Transport: RTP/AVP;unicast;client_port="@),
        one_line("-"@),
        one_line(";server_port=5700-5701;mode=\"PLAY\""@),
        one_line("Session: "@),
        one_line("RTP-Info: url=:"@),
        one_line("/stream=0;seq=1;rtptime=0"@),
{
    reveal_strlit("RTSP/1.0 200 OK");
    reveal_strlit("Public: OPTIONS, DESCRIBE, PLAY, SETUP, TEARDOWN");
    reveal_strlit("Server: Rust RTSP server");
    reveal_strlit("Content-Type: ");
    reveal_strlit("application/sdp");
    reveal_strlit("Range: npt=0-");
    reveal_strlit("CSeq: ");
    reveal_strlit("Content-Base: ");
    reveal_strlit("Content-Length: ");
    reveal_strlit("Transport: RTP/AVP;unicast;client_port=");
    reveal_strlit("-");
    reveal_strlit(";server_port=5700-5701;mode=\"PLAY\"");
    reveal_strlit("Session: ");
    reveal_strlit("RTP-Info: url=:");
    reveal_strlit("/stream=0;seq=1;rtptime=0");
    lemma_no_line_break_concat("Content-Type: "@, "application/sdp"@);
}

/// The session description is 76 characters of ASCII, so 76 bytes.
pub proof fn lemma_session_description_length()
    ensures
        session_description().len() == 76,
        encode_utf8(session_description()).len() == 76,
{
    reveal_strlit("v=0\r\ns=Rust RTSP server\r\nt=0 0\r\nm=video 0 RTP/AVP 96\r\na=rtpmap:96 H264/90000");
    assert(is_ascii_chars(session_description()));
    is_ascii_chars_encode_utf8(session_description());
}

/// The response to a request with a command other than `TEARDOWN`, whose
/// quoted fields hold no line break, dated by the clock: its header block
/// ends at the first blank line (`"\r\n\r\n"`). Only `DESCRIBE` has a body
/// after it: the session description, whose 76 bytes the last header line
/// before the blank line declares as its `Content-Length`. Every other
/// response ends with the blank line.
pub proof fn lemma_response_blank_line(m: RtspMessageModel, stamp: Seq<char>)
    requires
        respondable_model(m),
        m.command is Some,
        m.command != Some(RtspCommand::Teardown),
        quoted_fields_one_line(m),
        clock_stamp(stamp),
    ensures
        response_text(m, date_line(stamp)) matches Some(t) && find_from(t, "\r\n\r\n"@, 0) matches Some(i) && if m.command == Some(RtspCommand::Describe) {
            &&& t.subrange(i + 4, t.len() as int) == session_description()
            &&& t.len() - (i + 4) == 76
            &&& encode_utf8(session_description()).len() == 76
            &&& 20 <= i
            &&& t.subrange(i - 20, i) == "\r\nContent-Length: "@ + decimal(76)
        } else {
            i + 4 == t.len()
        },
{
    reveal_strlit("\r\n");
    reveal_strlit("\r\n\r\n");
    reveal_strlit("\r\nContent-Length: ");
    reveal_strlit("Content-Length: ");
    let crlf = "\r\n"@;
    let p4 = "\r\n\r\n"@;
    let date = date_line(stamp);
    lemma_date_line_shape(stamp);
    assert(one_line(date));
    lemma_fixed_texts_one_line();
    lemma_decimal_one_line(1);
    lemma_no_line_break_concat("Session: "@, decimal(1));
    assert(one_line(session_header()));
    let all = response_lines(m, date);
    let t = join(all, crlf);
    assert(crlf + crlf =~= p4);
    if m.command == Some(RtspCommand::Describe) {
        lemma_session_description_length();
        let n = encode_utf8(session_description()).len();
        lemma_decimal_one_line(n);
        let cl = "Content-Length: "@ + decimal(n);
        lemma_no_line_break_concat("Content-Length: "@, decimal(n));
        lemma_no_line_break_concat("CSeq: "@, m.cseq->0);
        lemma_no_line_break_concat("Content-Base: "@, m.content_base->0);
        let hs = seq![
            status_ok(),
            cseq_header(m),
            "Content-Type: "@ + "application/sdp"@,
            "Content-Base: "@ + m.content_base->0,
            server_header(),
            date,
            cl,
        ];
        assert forall|k: int| 0 <= k < hs.len() implies one_line(#[trigger] hs[k]) by {}
        let front = all.drop_last();
        assert(front =~= hs.drop_last().push(cl + crlf));
        assert(front.drop_last() =~= hs.drop_last());
        assert(front.last() == cl + crlf);
        assert(hs.drop_last().len() == 6);
        assert(join(front, crlf) == join(hs.drop_last(), crlf) + crlf + (cl + crlf));
        assert(join(hs, crlf) == join(hs.drop_last(), crlf) + crlf + cl);
        assert(t == join(front, crlf) + crlf + session_description());
        assert(t =~= join(hs, crlf) + p4 + session_description());
        lemma_blank_line_after(hs, session_description());
        let i = join(hs, crlf).len() as int;
        assert(t.subrange(i + 4, t.len() as int) =~= session_description());
        assert(decimal(76) == decimal(n));
        assert(decimal(7) == seq!['7']);
        assert(decimal(76) == decimal(7).push('6'));
        assert(cl.len() == 18);
        assert(t.subrange(i - 20, i) =~= crlf + cl);
        assert("\r\nContent-Length: "@ + decimal(76) =~= crlf + cl);
    } else {
        lemma_no_line_break_concat("CSeq: "@, m.cseq->0);
        let hs = all.drop_last();
        assert(all.last() == crlf);
        if m.command == Some(RtspCommand::Options) {
            assert(hs =~= seq![status_ok(), cseq_header(m), public_header(), server_header(), date]);
        } else if m.command == Some(RtspCommand::Setup) {
            let tr = "Transport: RTP/AVP;unicast;client_port="@ + m.client_rtp->0 + "-"@
                + m.client_rtcp->0 + ";server_port=5700-5701;mode=\"PLAY\""@;
            lemma_no_line_break_concat("Transport: RTP/AVP;unicast;client_port="@, m.client_rtp->0);
            lemma_no_line_break_concat(
                "Transport: RTP/AVP;unicast;client_port="@ + m.client_rtp->0,
                "-"@,
            );
            lemma_no_line_break_concat(
                "Transport: RTP/AVP;unicast;client_port="@ + m.client_rtp->0 + "-"@,
                m.client_rtcp->0,
            );
            lemma_no_line_break_concat(
                "Transport: RTP/AVP;unicast;client_port="@ + m.client_rtp->0 + "-"@
                    + m.client_rtcp->0,
                ";server_port=5700-5701;mode=\"PLAY\""@,
            );
            assert(one_line(tr));
            assert(hs =~= seq![status_ok(), cseq_header(m), tr, server_header(), session_header(), date]);
        } else {
            let info = "RTP-Info: url=:"@ + m.content_base->0 + "/stream=0;seq=1;rtptime=0"@;
            lemma_no_line_break_concat("RTP-Info: url=:"@, m.content_base->0);
            lemma_no_line_break_concat(
                "RTP-Info: url=:"@ + m.content_base->0,
                "/stream=0;seq=1;rtptime=0"@,
            );
            assert(one_line(info));
            assert(hs =~= seq![
                status_ok(),
                cseq_header(m),
                info,
                "Range: npt=0-"@,
                server_header(),
                session_header(),
                date,
            ]);
        }
        assert forall|k: int| 0 <= k < hs.len() implies one_line(#[trigger] hs[k]) by {}
        assert(t == join(hs, crlf) + crlf + crlf);
        assert(t =~= join(hs, crlf) + p4 + Seq::<char>::empty());
        lemma_blank_line_after(hs, Seq::<char>::empty());
    }
}


// ---------------------------------------------------------------------------
// Reading and answering a SETUP request
// ---------------------------------------------------------------------------

/// The raw text of a `SETUP` request for `url` with sequence number `cseq`
/// that asks for the client ports `rtp` and `rtcp`.
pub open spec fn setup_request(
    url: Seq<char>,
    cseq: Seq<char>,
    rtp: Seq<char>,
    rtcp: Seq<char>,
) -> Seq<char> {
    "SETUP "@ + url + " RTSP/1.0\r\nCSeq: "@ + cseq + "\r\nTransport: RTP/AVP;unicast;client_port="@
        + rtp + "-"@ + rtcp + "\r\n\r\n"@
}

/// The request line of a `SETUP` request for `url`.
spec fn setup_line(url: Seq<char>) -> Seq<char> {
    "SETUP"@ + " "@ + (url + " "@ + "RTSP/1.0"@)
}

/// The `CSeq` line of a request.
spec fn cseq_line(cseq: Seq<char>) -> Seq<char> {
    "CSeq"@ + ": "@ + cseq
}

/// The `Transport` item that names the client ports.
spec fn client_port_item(rtp: Seq<char>, rtcp: Seq<char>) -> Seq<char> {
    "client_port"@ + "="@ + (rtp + "-"@ + rtcp)
}

/// The `Transport` value of a `SETUP` request.
spec fn setup_transport(rtp: Seq<char>, rtcp: Seq<char>) -> Seq<char> {
    "RTP/AVP"@ + ";"@ + ("unicast"@ + ";"@ + client_port_item(rtp, rtcp))
}

/// The `Transport` line of a `SETUP` request.
spec fn transport_line(rtp: Seq<char>, rtcp: Seq<char>) -> Seq<char> {
    "Transport"@ + ": "@ + setup_transport(rtp, rtcp)
}

/// The lines of a `SETUP` request: the request line, the `CSeq` line, the
/// `Transport` line and two empty lines.
proof fn lemma_setup_lines(url: Seq<char>, cseq: Seq<char>, rtp: Seq<char>, rtcp: Seq<char>)
    requires
        lacks_char(url, '\r'),
        all_digits(cseq),
        all_digits(rtp),
        all_digits(rtcp),
    ensures
        lines_of(setup_request(url, cseq, rtp, rtcp)) == seq![
            setup_line(url),
            cseq_line(cseq),
            transport_line(rtp, rtcp),
            Seq::<char>::empty(),
            Seq::<char>::empty(),
        ],
{
    reveal_strlit("SETUP ");
    reveal_strlit(" RTSP/1.0\r\nCSeq: ");
    reveal_strlit("\r\nTransport: RTP/AVP;unicast;client_port=");
    reveal_strlit("-");
    reveal_strlit("\r\n\r\n");
    reveal_strlit("\r\n");
    reveal_strlit("SETUP");
    reveal_strlit(" ");
    reveal_strlit("RTSP/1.0");
    reveal_strlit("CSeq");
    reveal_strlit(": ");
    reveal_strlit("client_port");
    reveal_strlit("=");
    reveal_strlit("RTP/AVP");
    reveal_strlit(";");
    reveal_strlit("unicast");
    reveal_strlit("Transport");
    let crlf = "\r\n"@;
    let e = Seq::<char>::empty();
    let l0 = setup_line(url);
    let l1 = cseq_line(cseq);
    let l2 = transport_line(rtp, rtcp);
    let r3 = e + crlf + e;
    let r2 = l2 + crlf + r3;
    let r1 = l1 + crlf + r2;
    assert(setup_request(url, cseq, rtp, rtcp) =~= l0 + crlf + r1);
    lemma_digits_lack(cseq, '\r');
    lemma_digits_lack(rtp, '\r');
    lemma_digits_lack(rtcp, '\r');
    assert(lacks_char(l0, '\r'));
    assert(lacks_char(l1, '\r'));
    assert(lacks_char(l2, '\r'));
    lemma_split_head(l0, crlf, r1);
    lemma_split_head(l1, crlf, r2);
    lemma_split_head(l2, crlf, r3);
    lemma_split_head(e, crlf, e);
    lemma_split_whole(e, crlf);
}

/// The words of the request line of a `SETUP` request for a URL without
/// spaces: `SETUP`, the URL and `RTSP/1.0`.
proof fn lemma_setup_words(url: Seq<char>)
    requires
        lacks_char(url, ' '),
    ensures
        split(setup_line(url), " "@) == seq!["SETUP"@, url, "RTSP/1.0"@],
{
    reveal_strlit("SETUP");
    reveal_strlit(" ");
    reveal_strlit("RTSP/1.0");
    let sp = " "@;
    assert(lacks_char("SETUP"@, ' '));
    assert(lacks_char("RTSP/1.0"@, ' '));
    lemma_split_head("SETUP"@, sp, url + sp + "RTSP/1.0"@);
    lemma_split_head(url, sp, "RTSP/1.0"@);
    lemma_split_whole("RTSP/1.0"@, sp);
}


/// The header names and values of the lines of a `SETUP` request: the
/// `CSeq` line names `CSeq` with the sequence number as value, the
/// `Transport` line names `Transport`, and neither the request line nor an
/// empty line names a header that the reader looks for.
proof fn lemma_setup_headers(url: Seq<char>, cseq: Seq<char>, rtp: Seq<char>, rtcp: Seq<char>)
    requires
        all_digits(cseq),
        all_digits(rtp),
        all_digits(rtcp),
    ensures
        split(cseq_line(cseq), ": "@).len() >= 2,
        header_key(cseq_line(cseq)) == "CSeq"@,
        header_value(cseq_line(cseq)) == cseq,
        split(transport_line(rtp, rtcp), ": "@).len() >= 2,
        header_key(transport_line(rtp, rtcp)) == "Transport"@,
        header_value(transport_line(rtp, rtcp)) == setup_transport(rtp, rtcp),
        header_key(setup_line(url)) != "CSeq"@,
        header_key(setup_line(url)) != "Transport"@,
        header_key(setup_line(url)) != "Session"@,
        header_key(Seq::<char>::empty()) != "CSeq"@,
        header_key(Seq::<char>::empty()) != "Transport"@,
        header_key(Seq::<char>::empty()) != "Session"@,
{
    reveal_strlit("SETUP");
    reveal_strlit(" ");
    reveal_strlit(": ");
    reveal_strlit("CSeq");
    reveal_strlit("Transport");
    reveal_strlit("Session");
    reveal_strlit("client_port");
    reveal_strlit("=");
    reveal_strlit("-");
    reveal_strlit("RTP/AVP");
    reveal_strlit(";");
    reveal_strlit("unicast");
    let colon = ": "@;
    lemma_header_names_distinct();
    // The CSeq line.
    lemma_digits_lack(cseq, ':');
    assert(lacks_char("CSeq"@, ':'));
    lemma_split_head("CSeq"@, colon, cseq);
    lemma_split_whole(cseq, colon);
    // The Transport line.
    lemma_digits_lack(rtp, ':');
    lemma_digits_lack(rtcp, ':');
    let v = setup_transport(rtp, rtcp);
    assert(lacks_char(v, ':'));
    assert(lacks_char("Transport"@, ':'));
    lemma_split_head("Transport"@, colon, v);
    lemma_split_whole(v, colon);
    // The request line: its header name begins with `SE`.
    let l0 = setup_line(url);
    assert(l0.subrange(0, 2) =~= seq!['S', 'E']);
    assert(lacks_char(l0.subrange(0, 2), ':'));
    lemma_first_piece_prefix(l0, colon, 2);
    let k0 = header_key(l0);
    assert(k0[0] == 'S' && k0[1] == 'E');
    assert(k0[0] != "CSeq"@[0]);
    assert(k0[0] != "Transport"@[0]);
    assert(k0[1] != "Session"@[1]);
    // An empty line has an empty header name.
    let e = Seq::<char>::empty();
    lemma_split_whole(e, colon);
    assert(header_key(e).len() == 0);
}

/// The items of the `Transport` value of a `SETUP` request: only the last
/// names `client_port`, and it names the requested ports.
proof fn lemma_setup_transport_items(rtp: Seq<char>, rtcp: Seq<char>)
    requires
        all_digits(rtp),
        all_digits(rtcp),
    ensures
        transport_items(setup_transport(rtp, rtcp)) == seq![
            "RTP/AVP"@,
            "unicast"@,
            client_port_item(rtp, rtcp),
        ],
        forall|j: int|
            0 <= j < transport_items(setup_transport(rtp, rtcp)).len() ==> item_readable(
                #[trigger] transport_items(setup_transport(rtp, rtcp))[j],
            ),
        last_item_ports(transport_items(setup_transport(rtp, rtcp))) == Some((rtp, rtcp)),
{
    reveal_strlit("client_port");
    reveal_strlit("=");
    reveal_strlit("-");
    reveal_strlit("RTP/AVP");
    reveal_strlit(";");
    reveal_strlit("unicast");
    let semi = ";"@;
    let ci = client_port_item(rtp, rtcp);
    let items = seq!["RTP/AVP"@, "unicast"@, ci];
    lemma_digits_lack(rtp, ';');
    lemma_digits_lack(rtcp, ';');
    lemma_digits_lack(rtp, '=');
    lemma_digits_lack(rtcp, '=');
    lemma_digits_lack(rtcp, '-');
    assert(lacks_char(ci, ';'));
    assert(lacks_char("RTP/AVP"@, ';'));
    assert(lacks_char("unicast"@, ';'));
    lemma_split_head("RTP/AVP"@, semi, "unicast"@ + semi + ci);
    lemma_split_head("unicast"@, semi, ci);
    lemma_split_whole(ci, semi);
    assert(transport_items(setup_transport(rtp, rtcp)) =~= items);
    // The first two items are too short to name `client_port`.
    assert(!contains("RTP/AVP"@, "client_port"@));
    assert(!contains("unicast"@, "client_port"@));
    // The last item names it, and its value splits into the two ports.
    assert(ci.subrange(0, 11) =~= "client_port"@);
    lemma_occurs_contains(ci, "client_port"@, 0);
    let pair = rtp + "-"@ + rtcp;
    assert(lacks_char("client_port"@, '='));
    assert(lacks_char(pair, '='));
    lemma_split_head("client_port"@, "="@, pair);
    lemma_split_whole(pair, "="@);
    lemma_split_head(rtp, "-"@, rtcp);
    lemma_split_whole(rtcp, "-"@);
    assert(split(split(ci, "="@)[1], "-"@) =~= seq![rtp, rtcp]);
    assert(item_ports(ci) == Some((rtp, rtcp)));
    assert(item_ports("unicast"@) is None);
    assert(item_ports("RTP/AVP"@) is None);
    assert(items.drop_last() =~= seq!["RTP/AVP"@, "unicast"@]);
    assert forall|j: int| 0 <= j < items.len() implies item_readable(#[trigger] items[j]) by {
        if j == 2 {
            assert(items[j] == ci);
        }
    }
}


/// A `SETUP` request for a URL without spaces or carriage returns, whose
/// sequence number and client ports are digit strings, is read without
/// fault: as a `SETUP` for that URL with that sequence number, those client
/// ports and no session. It carries every header its response quotes, and
/// the response, whatever its date header, is the `200 OK` that echoes the
/// sequence number and the client ports, names the server ports, the server
/// and the session, and ends with the date header and a blank line.
pub proof fn lemma_setup_request_answered(
    url: Seq<char>,
    cseq: Seq<char>,
    rtp: Seq<char>,
    rtcp: Seq<char>,
    date: Seq<char>,
)
    requires
        lacks_char(url, ' '),
        lacks_char(url, '\r'),
        all_digits(cseq),
        all_digits(rtp),
        all_digits(rtcp),
    ensures
        message_parsable(setup_request(url, cseq, rtp, rtcp)),
        message_model(setup_request(url, cseq, rtp, rtcp)) == (RtspMessageModel {
            command: Some(RtspCommand::Setup),
            content_base: if contains(url, "rtsp://"@) {
                Some(url)
            } else {
                None
            },
            cseq: Some(cseq),
            session: None,
            client_rtp: Some(rtp),
            client_rtcp: Some(rtcp),
        }),
        respondable_model(message_model(setup_request(url, cseq, rtp, rtcp))),
        response_text(message_model(setup_request(url, cseq, rtp, rtcp)), date) == Some(
            "RTSP/1.0 200 OK\r\nCSeq: "@ + cseq + "\r\nTransport: RTP/AVP;unicast;client_port="@
                + rtp + "-"@ + rtcp
                + ";server_port=5700-5701;mode=\"PLAY\"\r\nServer: Rust RTSP server\r\nSession: 1\r\n"@
                + date + "\r\n\r\n"@,
        ),
{
    let raw = setup_request(url, cseq, rtp, rtcp);
    let e = Seq::<char>::empty();
    let l0 = setup_line(url);
    let l1 = cseq_line(cseq);
    let l2 = transport_line(rtp, rtcp);
    let v = setup_transport(rtp, rtcp);
    lemma_setup_lines(url, cseq, rtp, rtcp);
    lemma_setup_words(url);
    lemma_setup_headers(url, cseq, rtp, rtcp);
    lemma_setup_transport_items(rtp, rtcp);
    lemma_header_names_distinct();
    reveal_strlit("SETUP");
    reveal_strlit("OPTIONS");
    reveal_strlit("DESCRIBE");
    let lines = lines_of(raw);
    assert(lines == seq![l0, l1, l2, e, e]);
    // Every line is readable, and the request line has three words.
    assert(request_line_words(raw) == seq!["SETUP"@, url, "RTSP/1.0"@]);
    assert(line_readable(l0));
    assert(line_readable(l1));
    assert(line_readable(l2));
    assert(line_readable(e));
    assert forall|i: int| 0 <= i < lines.len() implies line_readable(#[trigger] lines[i]) by {
        if i == 0 {
            assert(lines[i] == l0);
        } else if i == 1 {
            assert(lines[i] == l1);
        } else if i == 2 {
            assert(lines[i] == l2);
        } else {
            assert(lines[i] == e);
        }
    }
    // The headers found, searching from the last line back.
    let d1 = seq![l0, l1, l2, e];
    let d2 = seq![l0, l1, l2];
    let d3 = seq![l0, l1];
    let d4 = seq![l0];
    assert(lines.drop_last() =~= d1);
    assert(d1.drop_last() =~= d2);
    assert(d2.drop_last() =~= d3);
    assert(d3.drop_last() =~= d4);
    assert(d4.drop_last() =~= Seq::<Seq<char>>::empty());
    assert(last_ports(d2) == Some((rtp, rtcp)));
    assert(last_ports(d1) == Some((rtp, rtcp)));
    assert(last_ports(lines) == Some((rtp, rtcp)));
    assert(last_header(d3, "CSeq"@) == Some(cseq));
    assert(last_header(d2, "CSeq"@) == Some(cseq));
    assert(last_header(d1, "CSeq"@) == Some(cseq));
    assert(last_header(lines, "CSeq"@) == Some(cseq));
    assert(last_header(Seq::<Seq<char>>::empty(), "Session"@) is None);
    assert(d4.last() == l0);
    assert(last_header(d4, "Session"@) is None);
    assert(last_header(d3, "Session"@) is None);
    assert(last_header(d2, "Session"@) is None);
    assert(last_header(d1, "Session"@) is None);
    assert(last_header(lines, "Session"@) is None);
    assert(command_of("SETUP"@) == Some(RtspCommand::Setup));
    // The response.
    let m = message_model(raw);
    reveal_strlit("RTSP/1.0 200 OK");
    reveal_strlit("CSeq: ");
    reveal_strlit("Transport: RTP/AVP;unicast;client_port=");
    reveal_strlit("-");
    reveal_strlit(";server_port=5700-5701;mode=\"PLAY\"");
    reveal_strlit("Server: Rust RTSP server");
    reveal_strlit("Session: ");
    reveal_strlit("\r\n");
    reveal_strlit("RTSP/1.0 200 OK\r\nCSeq: ");
    reveal_strlit("\r\nTransport: RTP/AVP;unicast;client_port=");
    reveal_strlit(";server_port=5700-5701;mode=\"PLAY\"\r\nServer: Rust RTSP server\r\nSession: 1\r\n");
    reveal_strlit("\r\n\r\n");
    reveal_with_fuel(join, 8);
    assert(decimal(1) == seq!['1']);
    let all = response_lines(m, date);
    assert(join(all, "\r\n"@) =~= "RTSP/1.0 200 OK\r\nCSeq: "@ + cseq
        + "\r\nTransport: RTP/AVP;unicast;client_port="@ + rtp + "-"@ + rtcp
        + ";server_port=5700-5701;mode=\"PLAY\"\r\nServer: Rust RTSP server\r\nSession: 1\r\n"@
        + date + "\r\n\r\n"@);
}


/// The first word of the request line decides the command: `OPTIONS`,
/// `DESCRIBE`, `SETUP`, `PLAY` and `TEARDOWN` are read as those commands, and
/// any other word as no command.
pub proof fn lemma_command_from_first_word(raw: Seq<char>)
    ensures
        request_line_words(raw)[0] == "OPTIONS"@ ==> message_model(raw).command == Some(
            RtspCommand::Options,
        ),
        request_line_words(raw)[0] == "DESCRIBE"@ ==> message_model(raw).command == Some(
            RtspCommand::Describe,
        ),
        request_line_words(raw)[0] == "SETUP"@ ==> message_model(raw).command == Some(
            RtspCommand::Setup,
        ),
        request_line_words(raw)[0] == "PLAY"@ ==> message_model(raw).command == Some(
            RtspCommand::Play,
        ),
        request_line_words(raw)[0] == "TEARDOWN"@ ==> message_model(raw).command == Some(
            RtspCommand::Teardown,
        ),
        request_line_words(raw)[0] != "OPTIONS"@ && request_line_words(raw)[0] != "DESCRIBE"@
            && request_line_words(raw)[0] != "SETUP"@ && request_line_words(raw)[0] != "PLAY"@
            && request_line_words(raw)[0] != "TEARDOWN"@ ==> message_model(raw).command is None,
{
    reveal_strlit("OPTIONS");
    reveal_strlit("DESCRIBE");
    reveal_strlit("SETUP");
    reveal_strlit("PLAY");
    reveal_strlit("TEARDOWN");
    assert("OPTIONS"@.len() == 7);
    assert("DESCRIBE"@.len() == 8);
    assert("SETUP"@.len() == 5);
    assert("PLAY"@.len() == 4);
    assert("TEARDOWN"@.len() == 8);
    assert("DESCRIBE"@[0] != "TEARDOWN"@[0]);
}

} // verus!
