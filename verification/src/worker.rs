//! The life of one connection, as a state machine.
//!
//! A connection is read, parsed, dispatched, written to and closed. All that
//! touches the outside (the stream, the files) is done by the caller: `step`
//! takes what the outside reported and says what is to be done next,
//! beginning with `Command::ReadLine`. A connection that fails stays failed,
//! and a failure never leaves it.

use crate::message::{
    CompressionType, FileError, ParseError, Request, RequestView, Response, ResponseView,
    StatusCode,
};
use crate::request::{closes_head, declared_length, is_closing_line, parse_request};
use crate::response::{status_view, wire};
use crate::router::{
    append_outcome, dispatch, file_append_response, file_read_response, read_outcome, route_with,
    Dispatch, DispatchView,
};
use crate::routes::{RouteTable, RouteView};
use crate::text::{append, ascii};
use vstd::prelude::*;

verus! {

/// Where a connection stands.
#[derive(Clone, Debug, PartialEq, Eq)]
pub enum Connection {
    /// The message is being read: `received` holds what has come of it.
    /// Once the head is closed, the body is awaited.
    Reading { received: Vec<u8>, head_closed: bool },
    /// The request has been parsed.
    Parsed { request: Request },
    /// It has been decided what to do; a file operation may be under way.
    Dispatched { action: Dispatch },
    /// The response has been handed out for writing.
    Writing,
    /// The response has been written.
    Closed,
    /// Something went wrong. The connection is given up.
    Failed,
}

/// What the outside reports.
#[derive(Debug, PartialEq, Eq)]
pub enum Event {
    /// The next line of the stream, its line feed included. It is empty, or
    /// lacks the line feed, where the stream has come to its end.
    Line(Vec<u8>),
    /// The bytes of the body: as many as were asked for, or fewer where the
    /// stream ended before.
    Body(Vec<u8>),
    /// The stream could not be read.
    ReadFailed,
    /// Nothing from outside: the last command was `Advance`.
    Advanced,
    /// The file was read, or could not be.
    FileRead(Result<Vec<u8>, FileError>),
    /// The file was written to, or could not be.
    FileAppended(Result<(), FileError>),
    /// The bytes were written to the stream, or could not be.
    Sent(bool),
}

/// What the caller is to do next.
#[derive(Clone, Debug, PartialEq, Eq)]
pub enum Command {
    /// Read the stream up to the next line feed and report `Line`.
    ReadLine,
    /// Read this many bytes from the stream and report `Body`.
    ReadBody(usize),
    /// Nothing outside: report `Advanced`.
    Advance,
    /// Read the named file and report `FileRead`.
    ReadFile { name: Vec<u8> },
    /// Append the contents to the named file and report `FileAppended`.
    AppendFile { name: Vec<u8>, contents: Vec<u8> },
    /// Write the bytes to the stream and report `Sent`.
    Send(Vec<u8>),
    /// Close the stream. Nothing more is to be done.
    Close,
}

/// The mathematical value of a `Connection`.
pub enum ConnectionView {
    Reading { received: Seq<u8>, head_closed: bool },
    Parsed { request: RequestView },
    Dispatched { action: DispatchView },
    Writing,
    Closed,
    Failed,
}

/// The mathematical value of an `Event`.
pub enum EventView {
    Line(Seq<u8>),
    Body(Seq<u8>),
    ReadFailed,
    Advanced,
    FileRead(Result<Seq<u8>, FileError>),
    FileAppended(Result<(), FileError>),
    Sent(bool),
}

/// The mathematical value of a `Command`.
pub enum CommandView {
    ReadLine,
    ReadBody(nat),
    Advance,
    ReadFile { name: Seq<u8> },
    AppendFile { name: Seq<u8>, contents: Seq<u8> },
    Send(Seq<u8>),
    Close,
}

impl View for Connection {
    type V = ConnectionView;

    open spec fn view(&self) -> ConnectionView {
        match self {
            Connection::Reading { received, head_closed } => ConnectionView::Reading {
                received: received@,
                head_closed: *head_closed,
            },
            Connection::Parsed { request } => ConnectionView::Parsed { request: request@ },
            Connection::Dispatched { action } => ConnectionView::Dispatched { action: action@ },
            Connection::Writing => ConnectionView::Writing,
            Connection::Closed => ConnectionView::Closed,
            Connection::Failed => ConnectionView::Failed,
        }
    }
}

impl View for Event {
    type V = EventView;

    open spec fn view(&self) -> EventView {
        match self {
            Event::Line(line) => EventView::Line(line@),
            Event::Body(bytes) => EventView::Body(bytes@),
            Event::ReadFailed => EventView::ReadFailed,
            Event::Advanced => EventView::Advanced,
            Event::FileRead(Ok(bytes)) => EventView::FileRead(Ok(bytes@)),
            Event::FileRead(Err(e)) => EventView::FileRead(Err(*e)),
            Event::FileAppended(done) => EventView::FileAppended(*done),
            Event::Sent(done) => EventView::Sent(*done),
        }
    }
}

impl View for Command {
    type V = CommandView;

    open spec fn view(&self) -> CommandView {
        match self {
            Command::ReadLine => CommandView::ReadLine,
            Command::ReadBody(count) => CommandView::ReadBody(*count as nat),
            Command::Advance => CommandView::Advance,
            Command::ReadFile { name } => CommandView::ReadFile { name: name@ },
            Command::AppendFile { name, contents } => CommandView::AppendFile {
                name: name@,
                contents: contents@,
            },
            Command::Send(bytes) => CommandView::Send(bytes@),
            Command::Close => CommandView::Close,
        }
    }
}

/// The value of the response to a request that broke off.
pub open spec fn bad_request_view() -> ResponseView {
    status_view(StatusCode::Bad, Seq::empty(), ascii("text/plain"@), CompressionType::none)
}

/// What is to be done outside for an action.
pub open spec fn command_for(action: DispatchView) -> CommandView {
    match action {
        DispatchView::Respond(_) => CommandView::Advance,
        DispatchView::ReadFile { name, encoding } => CommandView::ReadFile { name },
        DispatchView::AppendFile { name, contents, encoding } => CommandView::AppendFile {
            name,
            contents,
        },
    }
}

/// A connection on which nothing has happened yet.
pub open spec fn fresh() -> ConnectionView {
    ConnectionView::Reading { received: Seq::empty(), head_closed: false }
}

/// The step of a connection whose head is being read, on the next line.
///
/// A line that does not close the head is kept, and the next is asked for.
/// With the empty line, or at the end of the stream, the head is complete:
/// where it declares a body, that many bytes are asked for; where it does
/// not, the message is complete. So it is where the head declares more than
/// can be counted: no body that long can come.
pub open spec fn after_line(received: Seq<u8>, line: Seq<u8>) -> (ConnectionView, CommandView) {
    let all = received + line;
    if line.len() > 0 && !is_closing_line(line) {
        (ConnectionView::Reading { received: all, head_closed: false }, CommandView::ReadLine)
    } else if 0 < declared_length(all) <= usize::MAX {
        (
            ConnectionView::Reading { received: all, head_closed: true },
            CommandView::ReadBody(declared_length(all)),
        )
    } else {
        after_reading(all)
    }
}

/// The step of a connection whose message has been read to its end.
pub open spec fn after_reading(bytes: Seq<u8>) -> (ConnectionView, CommandView) {
    match parse_request(bytes) {
        Ok(request) => (ConnectionView::Parsed { request }, CommandView::Advance),
        Err(ParseError::MalformedRequestLine) => (ConnectionView::Failed, CommandView::Close),
        Err(ParseError::IncompleteBody) => (
            ConnectionView::Failed,
            CommandView::Send(wire(bad_request_view())),
        ),
    }
}

/// The step of a connection whose action has been decided.
pub open spec fn after_dispatch(action: DispatchView, event: EventView) -> (
    ConnectionView,
    CommandView,
) {
    match (action, event) {
        (DispatchView::Respond(response), EventView::Advanced) => (
            ConnectionView::Writing,
            CommandView::Send(wire(response)),
        ),
        (DispatchView::ReadFile { name, encoding }, EventView::FileRead(found)) => (
            ConnectionView::Writing,
            CommandView::Send(wire(read_outcome(found, encoding))),
        ),
        (DispatchView::AppendFile { name, contents, encoding }, EventView::FileAppended(done)) => (
            ConnectionView::Writing,
            CommandView::Send(wire(append_outcome(done, encoding))),
        ),
        _ => (ConnectionView::Failed, CommandView::Close),
    }
}

/// The step that a connection takes on an event, and the command that goes
/// with it. The routes are those of the server, the same for every
/// connection.
///
/// The message is read line by line up to the end of its head, then its
/// body in one piece. A request that is read goes on to be dispatched. One
/// whose request line is malformed is closed without a word; one whose body
/// broke off is answered with 400, as well as that can be done, and given
/// up. An action that needs a file waits for the file; its outcome, or the
/// response decided at once, is handed out for writing. Once written, the
/// connection is closed. An event that does not fit the state fails the
/// connection. From `Closed` and `Failed` nothing leads away.
pub open spec fn next(routes: Seq<RouteView>, state: ConnectionView, event: EventView) -> (
    ConnectionView,
    CommandView,
) {
    match (state, event) {
        (ConnectionView::Reading { received, head_closed }, EventView::Line(line)) => {
            if head_closed {
                (ConnectionView::Failed, CommandView::Close)
            } else {
                after_line(received, line)
            }
        },
        (ConnectionView::Reading { received, head_closed }, EventView::Body(bytes)) => {
            if head_closed {
                after_reading(received + bytes)
            } else {
                (ConnectionView::Failed, CommandView::Close)
            }
        },
        (ConnectionView::Parsed { request }, EventView::Advanced) => (
            ConnectionView::Dispatched { action: route_with(routes, request) },
            command_for(route_with(routes, request)),
        ),
        (ConnectionView::Dispatched { action }, event) => after_dispatch(action, event),
        (ConnectionView::Writing, EventView::Sent(true)) => (
            ConnectionView::Closed,
            CommandView::Close,
        ),
        (ConnectionView::Closed, _) => (ConnectionView::Closed, CommandView::Close),
        _ => (ConnectionView::Failed, CommandView::Close),
    }
}

/// The response to a request that broke off: 400, no body.
pub fn bad_request() -> (r: Response)
    ensures
        r@ == bad_request_view(),
{
    proof {
        reveal_strlit("text/plain");
    }
    Response::with_status(StatusCode::Bad, Vec::new(), "text/plain", CompressionType::none)
}

impl Connection {
    /// A connection on which nothing has happened yet. The first thing to
    /// do on it is `Command::ReadLine`.
    pub fn new() -> (c: Connection)
        ensures
            c@ == fresh(),
    {
        Connection::Reading { received: Vec::new(), head_closed: false }
    }

    /// The step of a connection whose message has been read to its end.
    fn parse(message: Vec<u8>) -> (r: (Connection, Command))
        ensures
            (r.0@, r.1@) == after_reading(message@),
    {
        match Request::new(message.as_slice()) {
            Ok(request) => (Connection::Parsed { request }, Command::Advance),
            Err(ParseError::MalformedRequestLine) => (Connection::Failed, Command::Close),
            Err(ParseError::IncompleteBody) => (
                Connection::Failed,
                Command::Send(bad_request().to_bytes()),
            ),
        }
    }

    /// Takes one step: from the state and what the outside reported to the
    /// next state and what is to be done.
    pub fn step(self, event: Event, routes: &RouteTable) -> (r: (Connection, Command))
        ensures
            (r.0@, r.1@) == next(routes@, self@, event@),
    {
        match self {
            Connection::Reading { received, head_closed } => {
                let mut received = received;
                match event {
                    Event::Line(line) => {
                        if head_closed {
                            (Connection::Failed, Command::Close)
                        } else {
                            append(&mut received, line.as_slice());
                            if line.len() > 0 && !closes_head(line.as_slice()) {
                                (
                                    Connection::Reading { received, head_closed: false },
                                    Command::ReadLine,
                                )
                            } else {
                                match Request::expected_body(received.as_slice()) {
                                    Some(expected) => {
                                        if expected > 0 {
                                            (
                                                Connection::Reading { received, head_closed: true },
                                                Command::ReadBody(expected),
                                            )
                                        } else {
                                            Connection::parse(received)
                                        }
                                    },
                                    None => Connection::parse(received),
                                }
                            }
                        }
                    },
                    Event::Body(bytes) => {
                        if head_closed {
                            append(&mut received, bytes.as_slice());
                            Connection::parse(received)
                        } else {
                            (Connection::Failed, Command::Close)
                        }
                    },
                    _ => (Connection::Failed, Command::Close),
                }
            },
            Connection::Parsed { request } => match event {
                Event::Advanced => {
                    let action = dispatch(routes, &request);
                    let command = match &action {
                        Dispatch::Respond(_) => Command::Advance,
                        Dispatch::ReadFile { name, encoding } => Command::ReadFile {
                            name: name.clone(),
                        },
                        Dispatch::AppendFile { name, contents, encoding } => Command::AppendFile {
                            name: name.clone(),
                            contents: contents.clone(),
                        },
                    };
                    (Connection::Dispatched { action }, command)
                },
                _ => (Connection::Failed, Command::Close),
            },
            Connection::Dispatched { action } => match (action, event) {
                (Dispatch::Respond(response), Event::Advanced) => (
                    Connection::Writing,
                    Command::Send(response.to_bytes()),
                ),
                (Dispatch::ReadFile { name, encoding }, Event::FileRead(found)) => (
                    Connection::Writing,
                    Command::Send(file_read_response(found, encoding).to_bytes()),
                ),
                (Dispatch::AppendFile { name, contents, encoding }, Event::FileAppended(done)) => (
                    Connection::Writing,
                    Command::Send(file_append_response(done, encoding).to_bytes()),
                ),
                _ => (Connection::Failed, Command::Close),
            },
            Connection::Writing => match event {
                Event::Sent(true) => (Connection::Closed, Command::Close),
                _ => (Connection::Failed, Command::Close),
            },
            Connection::Closed => (Connection::Closed, Command::Close),
            Connection::Failed => (Connection::Failed, Command::Close),
        }
    }
}

/// How far a connection has come.
pub open spec fn rank(state: ConnectionView) -> nat {
    match state {
        ConnectionView::Reading { received, head_closed } => 0,
        ConnectionView::Parsed { request } => 1,
        ConnectionView::Dispatched { action } => 2,
        ConnectionView::Writing => 3,
        ConnectionView::Closed => 4,
        ConnectionView::Failed => 4,
    }
}

/// The connection is closed or has failed.
pub open spec fn is_over(state: ConnectionView) -> bool {
    state is Closed || state is Failed
}

/// The state in which a connection is after a run of events.
pub open spec fn state_after(
    routes: Seq<RouteView>,
    state: ConnectionView,
    events: Seq<EventView>,
) -> ConnectionView
    decreases events.len(),
{
    if events.len() == 0 {
        state
    } else {
        state_after(routes, next(routes, state, events[0]).0, events.skip(1))
    }
}

/// The commands that a run of events draws, in their order.
pub open spec fn commands_of(
    routes: Seq<RouteView>,
    state: ConnectionView,
    events: Seq<EventView>,
) -> Seq<CommandView>
    decreases events.len(),
{
    if events.len() == 0 {
        Seq::empty()
    } else {
        seq![next(routes, state, events[0]).1] + commands_of(
            routes,
            next(routes, state, events[0]).0,
            events.skip(1),
        )
    }
}

/// How many of the commands hand out bytes for writing.
pub open spec fn sends(commands: Seq<CommandView>) -> nat
    decreases commands.len(),
{
    if commands.len() == 0 {
        0
    } else if commands[0] is Send {
        1 + sends(commands.skip(1))
    } else {
        sends(commands.skip(1))
    }
}

/// From `Closed` and `Failed` nothing leads away, and all that is left to do
/// is to close.
pub proof fn lemma_over_stays(routes: Seq<RouteView>, state: ConnectionView, event: EventView)
    requires
        is_over(state),
    ensures
        next(routes, state, event).0 == state,
        next(routes, state, event).1 == CommandView::Close,
{
}

/// No step takes a connection back, and every step of a connection that
/// has been read and is not over takes it further.
pub proof fn lemma_step_advances(routes: Seq<RouteView>, state: ConnectionView, event: EventView)
    ensures
        rank(next(routes, state, event).0) >= rank(state),
        !(state is Reading) && !is_over(state) ==> rank(next(routes, state, event).0) > rank(
            state,
        ),
{
}

/// Once its message has been read, a connection is over after three more
/// events, whatever they are.
pub proof fn lemma_over_after_three(
    routes: Seq<RouteView>,
    state: ConnectionView,
    events: Seq<EventView>,
)
    requires
        !(state is Reading),
        events.len() + rank(state) >= 4,
    ensures
        is_over(state_after(routes, state, events)),
    decreases events.len(),
{
    if events.len() > 0 {
        let then = next(routes, state, events[0]).0;
        lemma_step_advances(routes, state, events[0]);
        lemma_over_after_three(routes, then, events.skip(1));
    }
}

/// Once the response has been handed out, or the connection is over, no
/// bytes are handed out any more.
pub proof fn lemma_nothing_sent_after(
    routes: Seq<RouteView>,
    state: ConnectionView,
    events: Seq<EventView>,
)
    requires
        state is Writing || is_over(state),
    ensures
        sends(commands_of(routes, state, events)) == 0,
    decreases events.len(),
{
    if events.len() > 0 {
        let first = next(routes, state, events[0]);
        let rest = commands_of(routes, first.0, events.skip(1));
        lemma_nothing_sent_after(routes, first.0, events.skip(1));
        assert(commands_of(routes, state, events).skip(1) =~= rest);
    }
}

/// On one connection bytes are handed out for writing at most once: there
/// is one response to a request, or none.
pub proof fn lemma_at_most_one_send(
    routes: Seq<RouteView>,
    state: ConnectionView,
    events: Seq<EventView>,
)
    ensures
        sends(commands_of(routes, state, events)) <= 1,
    decreases events.len(),
{
    if events.len() > 0 {
        let first = next(routes, state, events[0]);
        let rest = commands_of(routes, first.0, events.skip(1));
        assert(commands_of(routes, state, events).skip(1) =~= rest);
        if first.1 is Send {
            lemma_nothing_sent_after(routes, first.0, events.skip(1));
        } else {
            lemma_at_most_one_send(routes, first.0, events.skip(1));
        }
    }
}

} // verus!
