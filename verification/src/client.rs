//! The decisions of the per-client connection loop.
//!
//! The connection is a state machine: the caller performs each
//! [`ClientAction`] (reading a line, probing a port, answering, starting a
//! stream, closing) and hands back what happened as a [`ClientEvent`].
//! Lines are gathered until the buffer holds a blank line (`"\r\n\r\n"`);
//! the buffered request is then read and answered. A `SETUP` request first
//! looks for a free server RTCP port, trying the ports from
//! [`FIRST_SERVER_PORT`] upwards, and then records the session; a `PLAY`
//! request starts the stream of the recorded session.

use vstd::prelude::*;
use vstd::seq_lib::lemma_flatten_concat;

use crate::rtsp_msg_handler::{
    message_model, message_parsable, read_message, RtspCommand, RtspMessage, RtspMessageModel,
};
use crate::rtsp_session::{
    next_port, next_server_port, session_model, ClientPorts, RtspSession, RtspSessionModel,
    FIRST_SERVER_PORT, SERVER_PORT_END,
};
use crate::text::{chars_of, contains, contains_chars};

verus! {

broadcast use vstd::string::group_string_axioms;

/// What happened since the last action.
pub enum ClientEvent {
    /// A line was read (with its line ending).
    LineRead(String),
    /// The client closed the connection.
    EndOfInput,
    /// Reading from the connection failed.
    ReadFailed,
    /// Whether the port asked for could be bound.
    PortProbed(bool),
}

/// The mathematical value of a [`ClientEvent`].
pub enum ClientEventModel {
    LineRead(Seq<char>),
    EndOfInput,
    ReadFailed,
    PortProbed(bool),
}

impl View for ClientEvent {
    type V = ClientEventModel;

    open spec fn view(&self) -> ClientEventModel {
        match self {
            ClientEvent::LineRead(l) => ClientEventModel::LineRead(l@),
            ClientEvent::EndOfInput => ClientEventModel::EndOfInput,
            ClientEvent::ReadFailed => ClientEventModel::ReadFailed,
            ClientEvent::PortProbed(b) => ClientEventModel::PortProbed(*b),
        }
    }
}

/// Why a connection ends.
#[derive(Clone, Copy, Debug, PartialEq, Eq, Structural)]
pub enum CloseReason {
    /// The client closed the connection.
    EndOfInput,
    /// Reading from the connection failed.
    ReadFailed,
    /// The buffered request cannot be read without fault; the connection
    /// handler gives up on it as a fault.
    Malformed,
    /// The request line names no known command.
    UnknownCommand,
    /// `PLAY` came before any `SETUP`.
    NoSession,
}

/// What the caller is to do next.
pub enum ClientAction {
    /// Read the next line from the client.
    ReadLine,
    /// Try to bind the given server port and report whether it worked.
    ProbePort(u16),
    /// Send the response of the request to the client, then read the next
    /// line.
    Respond(RtspMessage),
    /// Start streaming to the client with the session, send the response of
    /// the request, then read the next line.
    StartStream(RtspSession, RtspMessage),
    /// End the connection.
    Close(CloseReason),
}

/// The mathematical value of a [`ClientAction`].
pub enum ClientActionModel {
    ReadLine,
    ProbePort(u16),
    Respond(RtspMessageModel),
    StartStream(RtspSessionModel, RtspMessageModel),
    Close(CloseReason),
}

impl View for ClientAction {
    type V = ClientActionModel;

    open spec fn view(&self) -> ClientActionModel {
        match self {
            ClientAction::ReadLine => ClientActionModel::ReadLine,
            ClientAction::ProbePort(p) => ClientActionModel::ProbePort(*p),
            ClientAction::Respond(m) => ClientActionModel::Respond(m@),
            ClientAction::StartStream(s, m) => ClientActionModel::StartStream(s@, m@),
            ClientAction::Close(r) => ClientActionModel::Close(*r),
        }
    }
}

/// Where the connection stands.
pub enum Phase {
    /// Gathering the lines of the next request.
    Reading,
    /// Looking for a free server port for the `SETUP` request, the given
    /// port being the one asked for last.
    Probing(u16, RtspMessage),
    /// The connection has ended.
    Closed(CloseReason),
}

/// The mathematical value of a [`Phase`].
pub enum PhaseModel {
    Reading,
    Probing(u16, RtspMessageModel),
    Closed(CloseReason),
}

impl View for Phase {
    type V = PhaseModel;

    open spec fn view(&self) -> PhaseModel {
        match self {
            Phase::Reading => PhaseModel::Reading,
            Phase::Probing(p, m) => PhaseModel::Probing(*p, m@),
            Phase::Closed(r) => PhaseModel::Closed(*r),
        }
    }
}

/// The state of one client connection.
pub struct ClientState {
    /// The lines read so far of the request being gathered.
    pub buffer: String,
    /// The session recorded by the last `SETUP`, if any.
    pub session: Option<RtspSession>,
    pub phase: Phase,
}

/// The mathematical value of a [`ClientState`].
pub struct ClientStateModel {
    pub buffer: Seq<char>,
    pub session: Option<RtspSessionModel>,
    pub phase: PhaseModel,
}

/// The value of an optional session.
pub open spec fn session_view(s: Option<RtspSession>) -> Option<RtspSessionModel> {
    match s {
        Some(v) => Some(v@),
        None => None,
    }
}

impl View for ClientState {
    type V = ClientStateModel;

    open spec fn view(&self) -> ClientStateModel {
        ClientStateModel {
            buffer: self.buffer@,
            session: session_view(self.session),
            phase: self.phase@,
        }
    }
}

/// The blank line that ends a request.
pub open spec fn end_of_request() -> Seq<char> {
    "\r\n\r\n"@
}

/// The state of a connection that has just been accepted.
pub open spec fn initial_state() -> ClientStateModel {
    ClientStateModel { buffer: Seq::empty(), session: None, phase: PhaseModel::Reading }
}

/// The state and action after a complete request `text` was gathered while
/// reading, with `s` the state before the step.
pub open spec fn answer_request(s: ClientStateModel, text: Seq<char>) -> (
    ClientStateModel,
    ClientActionModel,
) {
    let closed = |r: CloseReason|
        (
            ClientStateModel { buffer: text, session: s.session, phase: PhaseModel::Closed(r) },
            ClientActionModel::Close(r),
        );
    if !message_parsable(text) {
        closed(CloseReason::Malformed)
    } else {
        let m = message_model(text);
        match m.command {
            None => closed(CloseReason::UnknownCommand),
            Some(RtspCommand::Setup) => (
                ClientStateModel {
                    buffer: Seq::empty(),
                    session: s.session,
                    phase: PhaseModel::Probing(FIRST_SERVER_PORT, m),
                },
                ClientActionModel::ProbePort(FIRST_SERVER_PORT),
            ),
            Some(RtspCommand::Play) => match s.session {
                Some(session) => (
                    ClientStateModel { buffer: Seq::empty(), session: s.session, phase: s.phase },
                    ClientActionModel::StartStream(session, m),
                ),
                None => closed(CloseReason::NoSession),
            },
            Some(_) => (
                ClientStateModel { buffer: Seq::empty(), session: s.session, phase: s.phase },
                ClientActionModel::Respond(m),
            ),
        }
    }
}

/// The state and action after event `e` in state `s`.
pub open spec fn next_step(s: ClientStateModel, e: ClientEventModel) -> (
    ClientStateModel,
    ClientActionModel,
) {
    match s.phase {
        PhaseModel::Closed(r) => (s, ClientActionModel::Close(r)),
        PhaseModel::Probing(port, m) => match e {
            ClientEventModel::PortProbed(true) => (
                ClientStateModel {
                    buffer: s.buffer,
                    session: Some(session_model(m, Some(port))),
                    phase: PhaseModel::Reading,
                },
                ClientActionModel::Respond(m),
            ),
            ClientEventModel::PortProbed(false) => match next_port(port) {
                Some(p) => (
                    ClientStateModel {
                        buffer: s.buffer,
                        session: s.session,
                        phase: PhaseModel::Probing(p, m),
                    },
                    ClientActionModel::ProbePort(p),
                ),
                None => (
                    ClientStateModel {
                        buffer: s.buffer,
                        session: Some(session_model(m, None)),
                        phase: PhaseModel::Reading,
                    },
                    ClientActionModel::Respond(m),
                ),
            },
            _ => (s, ClientActionModel::ProbePort(port)),
        },
        PhaseModel::Reading => match e {
            ClientEventModel::EndOfInput => (
                ClientStateModel {
                    buffer: s.buffer,
                    session: s.session,
                    phase: PhaseModel::Closed(CloseReason::EndOfInput),
                },
                ClientActionModel::Close(CloseReason::EndOfInput),
            ),
            ClientEventModel::ReadFailed => (
                ClientStateModel {
                    buffer: s.buffer,
                    session: s.session,
                    phase: PhaseModel::Closed(CloseReason::ReadFailed),
                },
                ClientActionModel::Close(CloseReason::ReadFailed),
            ),
            ClientEventModel::PortProbed(_) => (s, ClientActionModel::ReadLine),
            ClientEventModel::LineRead(line) => {
                let text = s.buffer + line;
                if contains(text, end_of_request()) {
                    answer_request(s, text)
                } else {
                    (
                        ClientStateModel { buffer: text, session: s.session, phase: s.phase },
                        ClientActionModel::ReadLine,
                    )
                }
            },
        },
    }
}

/// The states that a connection can reach: unless it is closed, the buffer
/// never holds a complete request; while probing, the port asked for lies in
/// the range of server ports and the pending request is a `SETUP`.
pub open spec fn reachable(s: ClientStateModel) -> bool {
    match s.phase {
        PhaseModel::Reading => !contains(s.buffer, end_of_request()),
        PhaseModel::Probing(port, m) => {
            &&& !contains(s.buffer, end_of_request())
            &&& FIRST_SERVER_PORT <= port < SERVER_PORT_END
            &&& m.command == Some(RtspCommand::Setup)
        },
        PhaseModel::Closed(_) => true,
    }
}

/// A newly accepted connection is in a reachable state.
pub proof fn lemma_initial_reachable()
    ensures
        reachable(initial_state()),
{
    reveal_strlit("\r\n\r\n");
    assert(!contains(Seq::<char>::empty(), end_of_request()));
}

/// Every step keeps the connection in a reachable state, and every port it
/// asks to probe lies in the range of server ports.
pub proof fn lemma_step_keeps_reachable(s: ClientStateModel, e: ClientEventModel)
    requires
        reachable(s),
    ensures
        reachable(next_step(s, e).0),
        next_step(s, e).1 matches ClientActionModel::ProbePort(p) ==> FIRST_SERVER_PORT <= p
            < SERVER_PORT_END,
{
    reveal_strlit("\r\n\r\n");
    assert(!contains(Seq::<char>::empty(), end_of_request()));
}

/// Once a connection is closed it stays closed: every further event leaves
/// the state as it is and asks again to close for the same reason.
pub proof fn lemma_closed_is_final(s: ClientStateModel, e: ClientEventModel)
    requires
        s.phase matches PhaseModel::Closed(_),
    ensures
        next_step(s, e).0 == s,
        s.phase matches PhaseModel::Closed(r) && next_step(s, e).1 == ClientActionModel::Close(r),
{
}

/// A stream is started only for a `PLAY` request and only with the session
/// that an earlier `SETUP` recorded; the session stays recorded.
pub proof fn lemma_stream_needs_session(s: ClientStateModel, e: ClientEventModel)
    ensures
        next_step(s, e).1 matches ClientActionModel::StartStream(session, m) ==> {
            &&& s.session == Some(session)
            &&& next_step(s, e).0.session == Some(session)
            &&& m.command == Some(RtspCommand::Play)
        },
{
}

/// A `SETUP` request is answered only once its session is recorded: with the
/// request's client ports and the server port that was found free (or port
/// 0 when every port was busy).
pub proof fn lemma_setup_records_session(s: ClientStateModel, e: ClientEventModel)
    requires
        reachable(s),
    ensures
        next_step(s, e).1 matches ClientActionModel::Respond(m) ==> (m.command == Some(
            RtspCommand::Setup,
        ) ==> exists|port: Option<u16>|
            #![trigger session_model(m, port)]
            next_step(s, e).0.session == Some(session_model(m, port)) && (port matches Some(p)
                ==> FIRST_SERVER_PORT <= p < SERVER_PORT_END)),
{
    if let ClientActionModel::Respond(m) = next_step(s, e).1 {
        if m.command == Some(RtspCommand::Setup) {
            if let PhaseModel::Probing(port, pending) = s.phase {
                match e {
                    ClientEventModel::PortProbed(true) => {
                        assert(next_step(s, e).0.session == Some(session_model(m, Some(port))));
                    },
                    _ => {
                        assert(next_step(s, e).0.session == Some(session_model(m, None)));
                    },
                }
            }
        }
    }
}

/// Every request that is answered names a command, and a `PLAY` request is
/// never answered without starting a stream.
pub proof fn lemma_answers_name_a_command(s: ClientStateModel, e: ClientEventModel)
    requires
        reachable(s),
    ensures
        next_step(s, e).1 matches ClientActionModel::Respond(m) ==> m.command is Some
            && m.command != Some(RtspCommand::Play),
{
}

/// An `OPTIONS`, `DESCRIBE` or `TEARDOWN` request is answered and the
/// connection goes on reading with its session as it was: `TEARDOWN` neither
/// ends the connection nor forgets the session.
pub proof fn lemma_plain_requests_keep_connection(s: ClientStateModel, line: Seq<char>)
    requires
        s.phase == PhaseModel::Reading,
        contains(s.buffer + line, end_of_request()),
        message_parsable(s.buffer + line),
        message_model(s.buffer + line).command == Some(RtspCommand::Options) || message_model(
            s.buffer + line,
        ).command == Some(RtspCommand::Describe) || message_model(s.buffer + line).command == Some(
            RtspCommand::Teardown,
        ),
    ensures
        next_step(s, ClientEventModel::LineRead(line)).1 == ClientActionModel::Respond(
            message_model(s.buffer + line),
        ),
        next_step(s, ClientEventModel::LineRead(line)).0.phase == PhaseModel::Reading,
        next_step(s, ClientEventModel::LineRead(line)).0.session == s.session,
{
}

/// A request is read from exactly the lines gathered since the last request
/// was taken, and taking it empties the buffer: a line that completes a
/// request makes the step read that text, answer it, start its stream or
/// look for its port, and start the next request afresh; a line that does
/// not complete one is only gathered.
pub proof fn lemma_request_read_alone(s: ClientStateModel, line: Seq<char>)
    requires
        s.phase == PhaseModel::Reading,
    ensures
        ({
            let (t, a) = next_step(s, ClientEventModel::LineRead(line));
            let text = s.buffer + line;
            &&& !contains(text, end_of_request()) ==> t.buffer == text && a
                == ClientActionModel::ReadLine
            &&& a matches ClientActionModel::Respond(m) ==> m == message_model(text)
                && t.buffer == Seq::<char>::empty()
            &&& a matches ClientActionModel::StartStream(_, m) ==> m == message_model(text)
                && t.buffer == Seq::<char>::empty()
            &&& t.phase matches PhaseModel::Probing(_, m) ==> m == message_model(text)
                && t.buffer == Seq::<char>::empty()
        }),
{
}

/// The states and actions of a run of events from `s`, step by step.
pub open spec fn run(s: ClientStateModel, es: Seq<ClientEventModel>) -> Seq<
    (ClientStateModel, ClientActionModel),
>
    decreases es.len(),
{
    if es.len() == 0 {
        Seq::empty()
    } else {
        let first = next_step(s, es[0]);
        seq![first] + run(first.0, es.drop_first())
    }
}

/// The state before step `i` of the run of `es` from `s`.
pub open spec fn state_before(s: ClientStateModel, es: Seq<ClientEventModel>, i: int) -> ClientStateModel {
    if i == 0 {
        s
    } else {
        run(s, es)[i - 1].0
    }
}

/// The action answers a `SETUP` request.
pub open spec fn answers_setup(a: ClientActionModel) -> bool {
    a matches ClientActionModel::Respond(m) && m.command == Some(RtspCommand::Setup)
}

/// A run has one step per event, and each step is the step from the state
/// the run has reached.
pub proof fn lemma_run_steps(s: ClientStateModel, es: Seq<ClientEventModel>)
    ensures
        run(s, es).len() == es.len(),
        forall|i: int|
            0 <= i < es.len() ==> #[trigger] run(s, es)[i] == next_step(state_before(s, es, i), es[i]),
    decreases es.len(),
{
    if es.len() > 0 {
        let first = next_step(s, es[0]);
        let tail = es.drop_first();
        lemma_run_steps(first.0, tail);
        assert forall|i: int| 0 <= i < es.len() implies #[trigger] run(s, es)[i] == next_step(
            state_before(s, es, i),
            es[i],
        ) by {
            if i > 0 {
                assert(run(s, es)[i] == run(first.0, tail)[i - 1]);
                assert(tail[i - 1] == es[i]);
                if i > 1 {
                    assert(run(s, es)[i - 1] == run(first.0, tail)[i - 2]);
                }
            }
        }
    }
}

/// Every state of a run from a reachable state is reachable.
pub proof fn lemma_run_reachable(s: ClientStateModel, es: Seq<ClientEventModel>, i: int)
    requires
        reachable(s),
        0 <= i <= es.len(),
    ensures
        reachable(state_before(s, es, i)),
    decreases i,
{
    if i > 0 {
        lemma_run_reachable(s, es, i - 1);
        lemma_run_steps(s, es);
        assert(run(s, es)[i - 1] == next_step(state_before(s, es, i - 1), es[i - 1]));
        lemma_step_keeps_reachable(state_before(s, es, i - 1), es[i - 1]);
    }
}

/// The recorded session changes only when a `SETUP` request is answered, and
/// answering one leaves a session recorded.
pub proof fn lemma_session_changes_only_at_setup(s: ClientStateModel, e: ClientEventModel)
    requires
        reachable(s),
    ensures
        next_step(s, e).0.session != s.session ==> answers_setup(next_step(s, e).1),
        answers_setup(next_step(s, e).1) ==> next_step(s, e).0.session is Some,
{
}

/// Along a run from a reachable state, the recorded session changes only at
/// a step that answers a `SETUP`, and such a step leaves a session recorded.
proof fn lemma_run_session_step(s: ClientStateModel, es: Seq<ClientEventModel>, i: int)
    requires
        reachable(s),
        0 <= i < es.len(),
    ensures
        state_before(s, es, i + 1).session != state_before(s, es, i).session ==> answers_setup(
            run(s, es)[i].1,
        ),
        answers_setup(run(s, es)[i].1) ==> run(s, es)[i].0.session is Some,
{
    lemma_run_steps(s, es);
    lemma_run_reachable(s, es, i);
    assert(run(s, es)[i] == next_step(state_before(s, es, i), es[i]));
    lemma_session_changes_only_at_setup(state_before(s, es, i), es[i]);
}

/// Over a run from a reachable state, a recorded session was recorded by
/// the latest step that answered a `SETUP`, or was there from the start.
proof fn lemma_session_from_latest_setup(s: ClientStateModel, es: Seq<ClientEventModel>, n: int)
    requires
        reachable(s),
        0 <= n <= es.len(),
    ensures
        state_before(s, es, n).session == s.session || exists|j: int|
            0 <= j < n && answers_setup(#[trigger] run(s, es)[j].1) && run(s, es)[j].0.session
                == state_before(s, es, n).session && forall|k: int|
                j < k < n ==> !answers_setup(#[trigger] run(s, es)[k].1),
    decreases n,
{
    if n > 0 {
        lemma_session_from_latest_setup(s, es, n - 1);
        lemma_run_session_step(s, es, n - 1);
        let prev = state_before(s, es, n - 1);
        let cur = state_before(s, es, n);
        assert(cur == run(s, es)[n - 1].0);
        if answers_setup(run(s, es)[n - 1].1) {
            assert(forall|k: int| n - 1 < k < n ==> !answers_setup(#[trigger] run(s, es)[k].1));
        } else {
            assert(cur.session == prev.session);
            if prev.session != s.session {
                let j = choose|j: int|
                    0 <= j < n - 1 && answers_setup(#[trigger] run(s, es)[j].1) && run(
                        s,
                        es,
                    )[j].0.session == prev.session && forall|k: int|
                        j < k < n - 1 ==> !answers_setup(#[trigger] run(s, es)[k].1);
                assert(forall|k: int| j < k < n ==> !answers_setup(#[trigger] run(s, es)[k].1));
            }
        }
    }
}

/// Over the run of a connection from its start, every stream is started
/// with the session recorded by the latest `SETUP` answered before it: a
/// `PLAY` streams only after a `SETUP`, and requests answered in between
/// (`OPTIONS`, `DESCRIBE`, `TEARDOWN`) leave that session in place.
pub proof fn lemma_stream_uses_latest_setup(es: Seq<ClientEventModel>, i: int)
    requires
        0 <= i < es.len(),
    ensures
        run(initial_state(), es)[i].1 matches ClientActionModel::StartStream(session, _) ==> exists|
            j: int,
        |
            0 <= j < i && answers_setup(#[trigger] run(initial_state(), es)[j].1) && run(
                initial_state(),
                es,
            )[j].0.session == Some(session) && forall|k: int|
                j < k < i ==> !answers_setup(#[trigger] run(initial_state(), es)[k].1),
{
    let s = initial_state();
    lemma_initial_reachable();
    lemma_run_steps(s, es);
    lemma_session_from_latest_setup(s, es, i);
    assert(run(s, es)[i] == next_step(state_before(s, es, i), es[i]));
    lemma_stream_needs_session(state_before(s, es, i), es[i]);
}

/// The request text that the step from `s` on `e` takes, if it takes one:
/// the lines gathered so far and the line just read, once they hold a blank
/// line.
pub open spec fn taken_text(s: ClientStateModel, e: ClientEventModel) -> Option<Seq<char>> {
    match s.phase {
        PhaseModel::Reading => match e {
            ClientEventModel::LineRead(line) => if contains(s.buffer + line, end_of_request()) {
                Some(s.buffer + line)
            } else {
                None
            },
            _ => None,
        },
        _ => None,
    }
}

/// The request that an action answers, if it answers one.
pub open spec fn answered_message(a: ClientActionModel) -> Option<RtspMessageModel> {
    match a {
        ClientActionModel::Respond(m) => Some(m),
        ClientActionModel::StartStream(_, m) => Some(m),
        _ => None,
    }
}

/// The element of an option, as a sequence of at most one element.
pub open spec fn option_seq<A>(o: Option<A>) -> Seq<A> {
    match o {
        Some(x) => seq![x],
        None => Seq::empty(),
    }
}

/// The request texts taken along the run of `es` from `s`, in order.
pub open spec fn requests_taken(s: ClientStateModel, es: Seq<ClientEventModel>) -> Seq<Seq<char>>
    decreases es.len(),
{
    if es.len() == 0 {
        Seq::empty()
    } else {
        option_seq(taken_text(s, es[0])) + requests_taken(next_step(s, es[0]).0, es.drop_first())
    }
}

/// The requests answered along the run of `es` from `s`, in order.
pub open spec fn requests_answered(s: ClientStateModel, es: Seq<ClientEventModel>) -> Seq<
    RtspMessageModel,
>
    decreases es.len(),
{
    if es.len() == 0 {
        Seq::empty()
    } else {
        option_seq(answered_message(next_step(s, es[0]).1)) + requests_answered(
            next_step(s, es[0]).0,
            es.drop_first(),
        )
    }
}

/// The state that the run of `es` from `s` ends in.
pub open spec fn end_state(s: ClientStateModel, es: Seq<ClientEventModel>) -> ClientStateModel
    decreases es.len(),
{
    if es.len() == 0 {
        s
    } else {
        end_state(next_step(s, es[0]).0, es.drop_first())
    }
}

/// The `SETUP` request that waits for its server port in state `s`, if any.
pub open spec fn pending_request(s: ClientStateModel) -> Seq<RtspMessageModel> {
    match s.phase {
        PhaseModel::Probing(_, m) => seq![m],
        _ => Seq::empty(),
    }
}

/// The messages read from request texts, one for each.
pub open spec fn messages_of(texts: Seq<Seq<char>>) -> Seq<RtspMessageModel> {
    Seq::new(texts.len(), |i: int| message_model(texts[i]))
}

/// Requests are answered in the order they were taken, each as the message
/// read from its own text: along any run of events, the answered requests
/// are, one for one, the request waiting for a port at the start followed by
/// the messages read from the requests taken. At most the last request taken
/// is left unanswered, and then the connection has closed or that request
/// still waits for its server port.
pub proof fn lemma_answers_in_request_order(s: ClientStateModel, es: Seq<ClientEventModel>)
    ensures
        ({
            let all = pending_request(s) + messages_of(requests_taken(s, es));
            let answered = requests_answered(s, es);
            let last = end_state(s, es);
            &&& answered.len() <= all.len()
            &&& answered == all.take(answered.len() as int)
            &&& answered.len() < all.len() ==> answered.len() + 1 == all.len() && (
            last.phase is Closed || pending_request(last) == seq![all.last()])
        }),
    decreases es.len(),
{
    if es.len() > 0 {
        let e = es[0];
        let (t, a) = next_step(s, e);
        let rest = es.drop_first();
        lemma_answers_in_request_order(t, rest);
        let taken = option_seq(taken_text(s, e));
        let rs = requests_taken(t, rest);
        assert(requests_taken(s, es) == taken + rs);
        assert(messages_of(taken + rs) =~= messages_of(taken) + messages_of(rs));
        assert(requests_answered(s, es) == option_seq(answered_message(a)) + requests_answered(
            t,
            rest,
        ));
        assert(end_state(s, es) == end_state(t, rest));
        let all_t = pending_request(t) + messages_of(rs);
        let ans_t = requests_answered(t, rest);
        let all = pending_request(s) + messages_of(taken) + messages_of(rs);
        let ans = option_seq(answered_message(a)) + ans_t;
        if let PhaseModel::Closed(_) = s.phase {
            assert(rs.len() == 0 && ans_t.len() == 0) by {
                lemma_closed_run_is_silent(s, rest);
            }
            assert(all =~= Seq::<RtspMessageModel>::empty());
            assert(ans =~= Seq::<RtspMessageModel>::empty());
        } else if let PhaseModel::Probing(_, m) = s.phase {
            assert(taken =~= Seq::<Seq<char>>::empty());
            if let ClientActionModel::Respond(_) = a {
                assert(all =~= seq![m] + all_t);
                assert(ans =~= seq![m] + ans_t);
                assert(ans.take(0) =~= Seq::<RtspMessageModel>::empty());
                assert(all.take(ans.len() as int) =~= seq![m] + all_t.take(ans_t.len() as int));
            } else {
                assert(all =~= all_t);
                assert(ans =~= ans_t);
            }
        } else {
            match taken_text(s, e) {
                None => {
                    assert(taken =~= Seq::<Seq<char>>::empty());
                    assert(all =~= all_t);
                    assert(ans =~= ans_t);
                },
                Some(text) => {
                    let mt = message_model(text);
                    assert(messages_of(taken) =~= seq![mt]);
                    if let PhaseModel::Closed(_) = t.phase {
                        lemma_closed_run_is_silent(t, rest);
                        assert(ans =~= Seq::<RtspMessageModel>::empty());
                        assert(all =~= seq![mt]);
                        assert(end_state(t, rest) == t) by {
                            lemma_closed_run_is_silent(t, rest);
                        }
                    } else if let PhaseModel::Probing(_, m) = t.phase {
                        assert(m == mt);
                        assert(all =~= all_t);
                        assert(ans =~= ans_t);
                    } else {
                        assert(answered_message(a) == Some(mt));
                        assert(all =~= seq![mt] + all_t);
                        assert(ans =~= seq![mt] + ans_t);
                        assert(all.take(ans.len() as int) =~= seq![mt] + all_t.take(
                            ans_t.len() as int,
                        ));
                    }
                },
            }
        }
    }
}

/// The line that the step from `s` on `e` reads into the request being
/// gathered, if any.
pub open spec fn line_gathered(s: ClientStateModel, e: ClientEventModel) -> Seq<char> {
    match s.phase {
        PhaseModel::Reading => match e {
            ClientEventModel::LineRead(line) => line,
            _ => Seq::empty(),
        },
        _ => Seq::empty(),
    }
}

/// The lines gathered along the run of `es` from `s`, one after another.
pub open spec fn lines_gathered(s: ClientStateModel, es: Seq<ClientEventModel>) -> Seq<char>
    decreases es.len(),
{
    if es.len() == 0 {
        Seq::empty()
    } else {
        line_gathered(s, es[0]) + lines_gathered(next_step(s, es[0]).0, es.drop_first())
    }
}

/// Each request is read from exactly the lines gathered since the request
/// before it, nothing dropped and nothing read twice: while the connection
/// stays open, the text buffered at the start followed by the lines
/// gathered is the requests taken, one after another, followed by the text
/// buffered at the end.
pub proof fn lemma_requests_partition_lines(s: ClientStateModel, es: Seq<ClientEventModel>)
    ensures
        !(end_state(s, es).phase is Closed) ==> s.buffer + lines_gathered(s, es) == requests_taken(
            s,
            es,
        ).flatten() + end_state(s, es).buffer,
    decreases es.len(),
{
    if es.len() == 0 {
        assert(requests_taken(s, es) =~= Seq::<Seq<char>>::empty());
        assert(s.buffer + lines_gathered(s, es) =~= s.buffer);
        assert(Seq::<Seq<char>>::empty().flatten() =~= Seq::<char>::empty());
        assert(Seq::<char>::empty() + s.buffer =~= s.buffer);
    } else {
        let e = es[0];
        let (t, a) = next_step(s, e);
        let rest = es.drop_first();
        lemma_requests_partition_lines(t, rest);
        let taken = option_seq(taken_text(s, e));
        let rs = requests_taken(t, rest);
        assert(requests_taken(s, es) == taken + rs);
        lemma_flatten_concat(taken, rs);
        assert(end_state(s, es) == end_state(t, rest));
        if !(end_state(s, es).phase is Closed) {
            if s.phase is Closed {
                lemma_closed_run_is_silent(s, rest);
                assert(end_state(t, rest) == t);
            } else if t.phase is Closed {
                lemma_closed_run_is_silent(t, rest);
            } else {
                let l = line_gathered(s, e);
                assert(lines_gathered(s, es) == l + lines_gathered(t, rest));
                match taken_text(s, e) {
                    None => {
                        assert(taken.flatten() =~= Seq::<char>::empty());
                        assert(t.buffer =~= s.buffer + l);
                        assert(s.buffer + (l + lines_gathered(t, rest)) =~= t.buffer
                            + lines_gathered(t, rest));
                        assert(Seq::<char>::empty() + rs.flatten() =~= rs.flatten());
                    },
                    Some(text) => {
                        assert(taken =~= seq![text]);
                        seq![text].lemma_flatten_one_element();
                        assert(t.buffer =~= Seq::<char>::empty());
                        assert(text =~= s.buffer + l);
                        assert(s.buffer + (l + lines_gathered(t, rest)) =~= text + (t.buffer
                            + lines_gathered(t, rest)));
                    },
                }
            }
        }
    }
}

/// A closed connection takes no request, answers none, and stays as it is.
proof fn lemma_closed_run_is_silent(s: ClientStateModel, es: Seq<ClientEventModel>)
    requires
        s.phase is Closed,
    ensures
        requests_taken(s, es).len() == 0,
        requests_answered(s, es).len() == 0,
        end_state(s, es) == s,
    decreases es.len(),
{
    if es.len() > 0 {
        lemma_closed_run_is_silent(s, es.drop_first());
    }
}

/// The answers to the probes of `n` ports from `from` on, given which ports
/// are free.
pub open spec fn probe_answers(free: spec_fn(u16) -> bool, from: u16, n: nat) -> Seq<
    ClientEventModel,
> {
    Seq::new(n, |i: int| ClientEventModel::PortProbed(free((from + i) as u16)))
}

/// While looking for a server port from `p` on, the first free port `q` is
/// the one recorded: once the busy ports before it and then `q` have been
/// reported, the `SETUP` request is answered with the session on port `q`.
pub proof fn lemma_first_free_port_recorded(
    s: ClientStateModel,
    m: RtspMessageModel,
    free: spec_fn(u16) -> bool,
    p: u16,
    q: u16,
)
    requires
        s.phase == PhaseModel::Probing(p, m),
        FIRST_SERVER_PORT <= p <= q < SERVER_PORT_END,
        forall|r: u16| p <= r < q ==> !#[trigger] free(r),
        free(q),
    ensures
        run(s, probe_answers(free, p, (q - p + 1) as nat)).last() == (
            ClientStateModel {
                buffer: s.buffer,
                session: Some(session_model(m, Some(q))),
                phase: PhaseModel::Reading,
            },
            ClientActionModel::Respond(m),
        ),
    decreases q - p,
{
    let es = probe_answers(free, p, (q - p + 1) as nat);
    lemma_run_steps(s, es);
    if p == q {
        assert(es[0] == ClientEventModel::PortProbed(free(p)));
    } else {
        assert(es[0] == ClientEventModel::PortProbed(free(p)));
        assert(!free(p));
        let first = next_step(s, es[0]);
        let p1 = (p + 1) as u16;
        assert(first.0.phase == PhaseModel::Probing(p1, m));
        lemma_first_free_port_recorded(first.0, m, free, p1, q);
        let tail = probe_answers(free, p1, (q - p1 + 1) as nat);
        assert(es.drop_first() =~= tail);
        lemma_run_steps(first.0, tail);
        assert(run(s, es) == seq![first] + run(first.0, tail));
    }
}

/// While looking for a server port from `p` on, when every port up to the
/// last is busy, the `SETUP` request is answered with the session on port 0.
pub proof fn lemma_no_free_port_records_zero(
    s: ClientStateModel,
    m: RtspMessageModel,
    free: spec_fn(u16) -> bool,
    p: u16,
)
    requires
        s.phase == PhaseModel::Probing(p, m),
        FIRST_SERVER_PORT <= p < SERVER_PORT_END,
        forall|r: u16| p <= r < SERVER_PORT_END ==> !#[trigger] free(r),
    ensures
        run(s, probe_answers(free, p, (SERVER_PORT_END - p) as nat)).last() == (
            ClientStateModel {
                buffer: s.buffer,
                session: Some(session_model(m, None)),
                phase: PhaseModel::Reading,
            },
            ClientActionModel::Respond(m),
        ),
    decreases SERVER_PORT_END - p,
{
    let es = probe_answers(free, p, (SERVER_PORT_END - p) as nat);
    lemma_run_steps(s, es);
    assert(es[0] == ClientEventModel::PortProbed(free(p)));
    assert(!free(p));
    if p + 1 < SERVER_PORT_END {
        let first = next_step(s, es[0]);
        let p1 = (p + 1) as u16;
        assert(first.0.phase == PhaseModel::Probing(p1, m));
        lemma_no_free_port_records_zero(first.0, m, free, p1);
        let tail = probe_answers(free, p1, (SERVER_PORT_END - p1) as nat);
        assert(es.drop_first() =~= tail);
        lemma_run_steps(first.0, tail);
        assert(run(s, es) == seq![first] + run(first.0, tail));
    }
}

impl ClientState {
    /// The state of a connection that has just been accepted.
    pub fn new() -> (r: ClientState)
        ensures
            r@ == initial_state(),
    {
        ClientState { buffer: String::new(), session: None, phase: Phase::Reading }
    }

    /// Records the session of a `SETUP` request and answers it.
    fn finish_setup(&mut self, request: RtspMessage, port: Option<u16>) -> (r: ClientAction)
        ensures
            final(self)@ == (ClientStateModel {
                buffer: old(self)@.buffer,
                session: Some(session_model(request@, port)),
                phase: old(self)@.phase,
            }),
            r@ == ClientActionModel::Respond(request@),
    {
        let session = RtspSession::record_client_ports(request.clone(), port);
        self.session = Some(session);
        ClientAction::Respond(request)
    }

    /// Answers a complete request gathered while reading.
    fn answer(&mut self) -> (r: ClientAction)
        requires
            old(self)@.phase == PhaseModel::Reading,
        ensures
            (final(self)@, r@) == answer_request(old(self)@, old(self)@.buffer),
    {
        let text = chars_of(self.buffer.as_str());
        match read_message(&text) {
            None => {
                self.phase = Phase::Closed(CloseReason::Malformed);
                ClientAction::Close(CloseReason::Malformed)
            },
            Some(request) => match request.command {
                None => {
                    self.phase = Phase::Closed(CloseReason::UnknownCommand);
                    ClientAction::Close(CloseReason::UnknownCommand)
                },
                Some(RtspCommand::Setup) => {
                    self.buffer = String::new();
                    self.phase = Phase::Probing(FIRST_SERVER_PORT, request);
                    ClientAction::ProbePort(FIRST_SERVER_PORT)
                },
                Some(RtspCommand::Play) => {
                    let current = match &self.session {
                        Some(s) => Some(s.clone()),
                        None => None,
                    };
                    match current {
                        Some(session) => {
                            self.buffer = String::new();
                            ClientAction::StartStream(session, request)
                        },
                        None => {
                            self.phase = Phase::Closed(CloseReason::NoSession);
                            ClientAction::Close(CloseReason::NoSession)
                        },
                    }
                },
                Some(_) => {
                    self.buffer = String::new();
                    ClientAction::Respond(request)
                },
            },
        }
    }

    /// Takes the connection one step further: given what happened since the
    /// last action, updates the state and says what to do next.
    pub fn step(&mut self, event: ClientEvent) -> (r: ClientAction)
        ensures
            (final(self)@, r@) == next_step(old(self)@, event@),
    {
        let mut phase = Phase::Reading;
        std::mem::swap(&mut phase, &mut self.phase);
        match phase {
            Phase::Closed(reason) => {
                self.phase = Phase::Closed(reason);
                ClientAction::Close(reason)
            },
            Phase::Probing(port, request) => match event {
                ClientEvent::PortProbed(true) => self.finish_setup(request, Some(port)),
                ClientEvent::PortProbed(false) => match next_server_port(port) {
                    Some(p) => {
                        self.phase = Phase::Probing(p, request);
                        ClientAction::ProbePort(p)
                    },
                    None => self.finish_setup(request, None),
                },
                _ => {
                    self.phase = Phase::Probing(port, request);
                    ClientAction::ProbePort(port)
                },
            },
            Phase::Reading => match event {
                ClientEvent::EndOfInput => {
                    self.phase = Phase::Closed(CloseReason::EndOfInput);
                    ClientAction::Close(CloseReason::EndOfInput)
                },
                ClientEvent::ReadFailed => {
                    self.phase = Phase::Closed(CloseReason::ReadFailed);
                    ClientAction::Close(CloseReason::ReadFailed)
                },
                ClientEvent::PortProbed(_) => ClientAction::ReadLine,
                ClientEvent::LineRead(line) => {
                    self.buffer.append(line.as_str());
                    let text = chars_of(self.buffer.as_str());
                    let end = chars_of("\r\n\r\n");
                    if contains_chars(&text, &end) {
                        self.answer()
                    } else {
                        ClientAction::ReadLine
                    }
                },
            },
        }
    }
}

} // verus!
