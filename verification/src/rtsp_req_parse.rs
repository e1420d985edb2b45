//! A request reader that recognises an `OPTIONS` request and no other.

use vstd::prelude::*;

use crate::headers::{lines_of, numbered_line_readable, request_line_words};
use crate::text::{chars_eq, chars_of, lemma_split_nonempty, split_chars};

verus! {

broadcast use vstd::string::group_string_axioms;

/// The RTSP methods that this reader names.
#[derive(Clone, Copy, Debug, PartialEq, Eq, Structural)]
pub enum RtspCommand {
    Options,
    Describe,
    Play,
    Setup,
    Teardown,
}

/// A message type that can be read from raw text.
pub trait RawMessage: Sized {
    /// The raw texts that can be read without fault.
    spec fn parsable(raw: Seq<char>) -> bool;

    /// Reads a message from the raw text of an RTSP request.
    fn parse_as_rtsp(raw: String) -> (r: Option<Self>)
        requires
            Self::parsable(raw@),
    ;
}

/// An RTSP request with the fields this reader knows of.
#[derive(Debug)]
pub struct RtspRequest {
    pub command: Option<RtspCommand>,
    pub uri: Option<String>,
    pub rtsp_spec_version: Option<String>,
    pub cseq: Option<i32>,
    pub user_agent: Option<String>,
    pub session: Option<String>,
    pub transport: Option<String>,
}

/// The mathematical value of an [`RtspRequest`].
pub struct RtspRequestModel {
    pub command: Option<RtspCommand>,
    pub uri: Option<Seq<char>>,
    pub rtsp_spec_version: Option<Seq<char>>,
    pub cseq: Option<i32>,
    pub user_agent: Option<Seq<char>>,
    pub session: Option<Seq<char>>,
    pub transport: Option<Seq<char>>,
}

impl View for RtspRequest {
    type V = RtspRequestModel;

    open spec fn view(&self) -> RtspRequestModel {
        RtspRequestModel {
            command: self.command,
            uri: self.uri.deep_view(),
            rtsp_spec_version: self.rtsp_spec_version.deep_view(),
            cseq: self.cseq,
            user_agent: self.user_agent.deep_view(),
            session: self.session.deep_view(),
            transport: self.transport.deep_view(),
        }
    }
}

/// The request with no field filled in.
pub open spec fn blank_request() -> RtspRequestModel {
    RtspRequestModel {
        command: None,
        uri: None,
        rtsp_spec_version: None,
        cseq: None,
        user_agent: None,
        session: None,
        transport: None,
    }
}

/// The request line names `OPTIONS`.
pub open spec fn is_options(raw: Seq<char>) -> bool {
    request_line_words(raw)[0] == "OPTIONS"@
}

/// The raw requests that can be read without fault: in an `OPTIONS`
/// request, every `CSeq`, `Transport` or `Session` line has a value, a `CSeq`
/// value being a number in the range of `i32`.
pub open spec fn request_parsable(raw: Seq<char>) -> bool {
    is_options(raw) ==> forall|i: int|
        0 <= i < lines_of(raw).len() ==> numbered_line_readable(#[trigger] lines_of(raw)[i])
}

impl RawMessage for RtspRequest {
    open spec fn parsable(raw: Seq<char>) -> bool {
        request_parsable(raw)
    }

    /// An `OPTIONS` request is read as a request with no field filled in;
    /// every other request is not read.
    fn parse_as_rtsp(raw: String) -> (r: Option<RtspRequest>)
        ensures
            r is Some <==> is_options(raw@),
            r matches Some(q) ==> q@ == blank_request(),
    {
        let text = chars_of(raw.as_str());
        let crlf = chars_of("\r\n");
        let space = chars_of(" ");
        proof {
            reveal_strlit("\r\n");
            reveal_strlit(" ");
        }
        let lines = split_chars(&text, &crlf);
        proof {
            lemma_split_nonempty(text@, crlf@);
        }
        let words = split_chars(&lines[0], &space);
        proof {
            lemma_split_nonempty(lines[0]@, space@);
        }
        if chars_eq(&words[0], &chars_of("OPTIONS")) {
            Some(
                RtspRequest {
                    command: None,
                    uri: None,
                    rtsp_spec_version: None,
                    cseq: None,
                    user_agent: None,
                    session: None,
                    transport: None,
                },
            )
        } else {
            None
        }
    }
}


/// Only a request whose request line begins with the word `OPTIONS` is
/// read; a request that names any other method, such as `PAUSE` or
/// `GET_PARAMETER`, is refused.
pub proof fn lemma_reads_options_only(raw: Seq<char>)
    ensures
        request_line_words(raw)[0] == "OPTIONS"@ ==> is_options(raw),
        request_line_words(raw)[0] != "OPTIONS"@ ==> !is_options(raw),
        request_line_words(raw)[0] == "PAUSE"@ ==> !is_options(raw),
{
    reveal_strlit("OPTIONS");
    reveal_strlit("PAUSE");
    assert("OPTIONS"@.len() != "PAUSE"@.len());
}

} // verus!
