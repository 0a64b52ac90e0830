use http_core::message::{CompressionType, FileError, RequestType, Response, StatusCode};
use http_core::router::Dispatch;
use http_core::routes::{Handler, Route, RouteTable, Segment};
use http_core::worker::{bad_request, Command, Connection, Event};

fn step(state: Connection, event: Event) -> (Connection, Command) {
    state.step(event, &RouteTable::standard())
}

/// Feeds the stream to a new connection as a reader would: line by line
/// while lines are asked for, then the body in one piece.
fn read(stream: &[u8], routes: &RouteTable) -> (Connection, Command) {
    let mut state = Connection::new();
    let mut command = Command::ReadLine;
    let mut rest = stream;
    loop {
        let event = match command {
            Command::ReadLine => {
                let end = rest.iter().position(|b| *b == b'\n').map_or(rest.len(), |i| i + 1);
                let (line, tail) = rest.split_at(end);
                rest = tail;
                Event::Line(line.to_vec())
            }
            Command::ReadBody(count) => {
                let (body, tail) = rest.split_at(count.min(rest.len()));
                rest = tail;
                Event::Body(body.to_vec())
            }
            other => return (state, other),
        };
        let (next, then) = state.step(event, routes);
        state = next;
        command = then;
    }
}

fn parsed(message: &[u8]) -> Connection {
    let (state, command) = read(message, &RouteTable::standard());
    assert_eq!(command, Command::Advance);
    assert!(matches!(state, Connection::Parsed { .. }));
    state
}

#[test]
fn connection_starts_reading() {
    assert_eq!(Connection::new(), Connection::Reading { received: Vec::new(), head_closed: false });
}

#[test]
fn head_is_read_line_by_line() {
    let (state, command) = step(Connection::new(), Event::Line(b"GET / HTTP/1.1\r\n".to_vec()));
    assert_eq!(command, Command::ReadLine);
    assert_eq!(
        state,
        Connection::Reading { received: b"GET / HTTP/1.1\r\n".to_vec(), head_closed: false }
    );
    let (state, command) = step(state, Event::Line(b"Host: a\n".to_vec()));
    assert_eq!(command, Command::ReadLine);
    assert_eq!(
        state,
        Connection::Reading { received: b"GET / HTTP/1.1\r\nHost: a\n".to_vec(), head_closed: false }
    );
    let (state, command) = step(state, Event::Line(b"\r\n".to_vec()));
    assert_eq!(command, Command::Advance);
    match state {
        Connection::Parsed { request } => {
            assert_eq!(request.request_type, RequestType::GET);
            assert_eq!(request.host, b"a".to_vec());
        }
        other => panic!("{}", format!("{other:?}")),
    }
}

#[test]
fn body_is_asked_for_as_the_head_declares() {
    let (state, _) = step(Connection::new(), Event::Line(b"POST /files/a HTTP/1.1\r\n".to_vec()));
    let (state, command) = step(state, Event::Line(b"Content-Length: 5\r\n".to_vec()));
    assert_eq!(command, Command::ReadLine);
    let (state, command) = step(state, Event::Line(b"\r\n".to_vec()));
    assert_eq!(command, Command::ReadBody(5));
    assert_eq!(
        state,
        Connection::Reading {
            received: b"POST /files/a HTTP/1.1\r\nContent-Length: 5\r\n\r\n".to_vec(),
            head_closed: true
        }
    );
    let (state, command) = step(state, Event::Body(b"hello".to_vec()));
    assert_eq!(command, Command::Advance);
    match state {
        Connection::Parsed { request } => assert_eq!(request.contents, b"hello".to_vec()),
        other => panic!("{}", format!("{other:?}")),
    }
}

#[test]
fn body_that_cannot_be_counted_is_not_asked_for() {
    let (state, _) = step(Connection::new(), Event::Line(b"POST /files/a HTTP/1.1\r\n".to_vec()));
    let line = b"Content-Length: 99999999999999999999999999\r\n".to_vec();
    let (state, _) = step(state, Event::Line(line));
    let (state, command) = step(state, Event::Line(b"\r\n".to_vec()));
    assert_eq!(state, Connection::Failed);
    assert_eq!(command, Command::Send(bad_request().to_bytes()));
}

#[test]
fn negative_content_length_asks_for_no_body() {
    let (state, _) = step(Connection::new(), Event::Line(b"POST /files/a HTTP/1.1\r\n".to_vec()));
    let (state, _) = step(state, Event::Line(b"Content-Length: -5\r\n".to_vec()));
    let (state, command) = step(state, Event::Line(b"\r\n".to_vec()));
    assert_eq!(command, Command::Advance);
    match state {
        Connection::Parsed { request } => {
            assert_eq!(request.content_length, 0);
            assert_eq!(request.contents, Vec::<u8>::new());
        }
        other => panic!("{}", format!("{other:?}")),
    }
}

#[test]
fn end_of_stream_closes_the_head() {
    let (state, _) = step(Connection::new(), Event::Line(b"GET /echo/a HTTP/1.1\r\n".to_vec()));
    let (state, command) = step(state, Event::Line(Vec::new()));
    assert_eq!(command, Command::Advance);
    assert!(matches!(state, Connection::Parsed { .. }));
    let (state, command) = read(b"GET /echo/a HTTP/1.1", &RouteTable::standard());
    assert_eq!(command, Command::Advance);
    assert!(matches!(state, Connection::Parsed { .. }));
}

#[test]
fn plain_request_runs_to_closed() {
    let state = parsed(b"GET /echo/hi HTTP/1.1\r\n\r\n");
    let (state, command) = step(state, Event::Advanced);
    assert!(matches!(state, Connection::Dispatched { action: Dispatch::Respond(_) }));
    assert_eq!(command, Command::Advance);
    let (state, command) = step(state, Event::Advanced);
    assert_eq!(state, Connection::Writing);
    assert_eq!(
        command,
        Command::Send(
            b"HTTP/1.1 200 OK\r\nContent-Type: text/plain\r\nContent-Length: 2\r\n\r\nhi".to_vec()
        )
    );
    let (state, command) = step(state, Event::Sent(true));
    assert_eq!(state, Connection::Closed);
    assert_eq!(command, Command::Close);
}

#[test]
fn file_read_waits_for_the_file() {
    let state = parsed(b"GET /files/a.txt HTTP/1.1\r\nAccept-Encoding: gzip\r\n\r\n");
    let (state, command) = step(state, Event::Advanced);
    assert_eq!(command, Command::ReadFile { name: b"a.txt".to_vec() });
    let (state, command) = step(state, Event::FileRead(Ok(b"data".to_vec())));
    assert_eq!(state, Connection::Writing);
    let expected: &[u8] = b"HTTP/1.1 200 OK\r\nContent-Type: application/octet-stream\r\n\
        Content-Encoding: gzip\r\nContent-Length: 4\r\n\r\ndata";
    assert_eq!(command, Command::Send(expected.to_vec()));
}

#[test]
fn file_that_is_missing_is_answered_with_404() {
    let state = parsed(b"GET /files/a.txt HTTP/1.1\r\n\r\n");
    let (state, _) = step(state, Event::Advanced);
    let (state, command) = step(state, Event::FileRead(Err(FileError::FileNotFound)));
    assert_eq!(state, Connection::Writing);
    assert_eq!(command, Command::Send(Response::not_found().to_bytes()));
}

#[test]
fn file_append_waits_for_the_write() {
    let state = parsed(b"POST /files/a.txt HTTP/1.1\r\nContent-Length: 3\r\n\r\nabc");
    let (state, command) = step(state, Event::Advanced);
    assert_eq!(command, Command::AppendFile { name: b"a.txt".to_vec(), contents: b"abc".to_vec() });
    let (written, sent) = step(state.clone(), Event::FileAppended(Ok(())));
    assert_eq!(written, Connection::Writing);
    assert_eq!(
        sent,
        Command::Send(
            b"HTTP/1.1 201 Created\r\nContent-Type: text/plain\r\nContent-Length: 0\r\n\r\n".to_vec()
        )
    );
    let (failed, sent) = step(state, Event::FileAppended(Err(FileError::FileIOError)));
    assert_eq!(failed, Connection::Writing);
    assert_eq!(sent, Command::Send(Response::not_found().to_bytes()));
}

#[test]
fn malformed_request_is_closed_without_a_word() {
    let (state, command) = read(b"GET /\r\n\r\n", &RouteTable::standard());
    assert_eq!(state, Connection::Failed);
    assert_eq!(command, Command::Close);
    let (state, command) = read(b"", &RouteTable::standard());
    assert_eq!(state, Connection::Failed);
    assert_eq!(command, Command::Close);
}

#[test]
fn incomplete_body_is_answered_with_400() {
    let message = b"POST /files/a HTTP/1.1\r\nContent-Length: 10\r\n\r\nshort";
    let (state, command) = read(message, &RouteTable::standard());
    assert_eq!(state, Connection::Failed);
    assert_eq!(
        command,
        Command::Send(
            b"HTTP/1.1 400 Bad Request\r\nContent-Type: text/plain\r\nContent-Length: 0\r\n\r\n".to_vec()
        )
    );
    let (state, command) = step(state, Event::Sent(true));
    assert_eq!(state, Connection::Failed);
    assert_eq!(command, Command::Close);
}

#[test]
fn bad_request_is_400_without_body() {
    let r = bad_request();
    assert_eq!(r.status_code, StatusCode::Bad);
    assert_eq!(r.status_message, b"Bad Request".to_vec());
    assert_eq!(r.contents, Vec::<u8>::new());
    assert_eq!(r.content_encoding, CompressionType::none);
}

#[test]
fn read_failure_fails_the_connection() {
    let (state, command) = step(Connection::new(), Event::ReadFailed);
    assert_eq!(state, Connection::Failed);
    assert_eq!(command, Command::Close);
    let (state, _) = step(Connection::new(), Event::Line(b"GET / HTTP/1.1\r\n".to_vec()));
    let (state, command) = step(state, Event::ReadFailed);
    assert_eq!(state, Connection::Failed);
    assert_eq!(command, Command::Close);
}

#[test]
fn write_failure_fails_the_connection() {
    let (state, command) = step(Connection::Writing, Event::Sent(false));
    assert_eq!(state, Connection::Failed);
    assert_eq!(command, Command::Close);
}

#[test]
fn event_that_does_not_fit_fails_the_connection() {
    let state = parsed(b"GET /files/a HTTP/1.1\r\n\r\n");
    let (waiting, _) = step(state.clone(), Event::Advanced);
    let body_due = Connection::Reading { received: b"x".to_vec(), head_closed: true };
    for (state, event) in [
        (Connection::new(), Event::Advanced),
        (Connection::new(), Event::Sent(true)),
        (Connection::new(), Event::Body(Vec::new())),
        (body_due, Event::Line(b"\n".to_vec())),
        (state.clone(), Event::Line(Vec::new())),
        (state, Event::FileRead(Err(FileError::FileNotFound))),
        (waiting.clone(), Event::Advanced),
        (waiting.clone(), Event::FileAppended(Ok(()))),
        (waiting, Event::Sent(true)),
        (Connection::Writing, Event::Advanced),
        (Connection::Writing, Event::FileRead(Err(FileError::FileNotFound))),
    ] {
        assert_eq!(step(state, event), (Connection::Failed, Command::Close));
    }
}

#[test]
fn closed_and_failed_are_left_by_nothing() {
    let events = || {
        [
            Event::Line(b"GET / HTTP/1.1\r\n".to_vec()),
            Event::Body(Vec::new()),
            Event::ReadFailed,
            Event::Advanced,
            Event::FileRead(Ok(Vec::new())),
            Event::FileRead(Err(FileError::FileIOError)),
            Event::FileAppended(Ok(())),
            Event::Sent(true),
        ]
    };
    for event in events() {
        assert_eq!(step(Connection::Closed, event), (Connection::Closed, Command::Close));
    }
    for event in events() {
        assert_eq!(step(Connection::Failed, event), (Connection::Failed, Command::Close));
    }
}

#[test]
fn bytes_are_handed_out_once_at_most() {
    let scripts: [Vec<Event>; 4] = [
        vec![
            Event::Line(b"GET /echo/a HTTP/1.1\r\n".to_vec()),
            Event::Line(b"\r\n".to_vec()),
            Event::Advanced,
            Event::Advanced,
            Event::Sent(true),
            Event::Sent(true),
            Event::Advanced,
        ],
        vec![
            Event::Line(b"GET /files/a HTTP/1.1\r\n".to_vec()),
            Event::Line(Vec::new()),
            Event::Advanced,
            Event::FileRead(Err(FileError::FileNotFound)),
            Event::FileRead(Err(FileError::FileNotFound)),
            Event::Sent(false),
        ],
        vec![
            Event::Line(b"POST /x HTTP/1.1\r\n".to_vec()),
            Event::Line(b"Content-Length: 1\r\n".to_vec()),
            Event::Line(b"\r\n".to_vec()),
            Event::Body(Vec::new()),
            Event::Sent(true),
            Event::Line(b"GET / HTTP/1.1\r\n".to_vec()),
            Event::Advanced,
        ],
        vec![Event::Line(b"nothing".to_vec()), Event::Line(Vec::new()), Event::Advanced],
    ];
    for script in scripts {
        let mut state = Connection::new();
        let mut sends = 0;
        for event in script {
            let (next, command) = step(state, event);
            if matches!(command, Command::Send(_)) {
                sends += 1;
            }
            state = next;
        }
        assert!(sends <= 1);
        assert!(matches!(state, Connection::Closed | Connection::Failed));
    }
}

#[test]
fn connection_is_routed_by_the_table_of_the_server() {
    let table = RouteTable {
        routes: vec![Route {
            method: RequestType::GET,
            pattern: vec![Segment::Capture],
            handler: Handler::Echo,
        }],
    };
    let (state, _) = read(b"GET /user-agent HTTP/1.1\r\n\r\n", &table);
    let (state, _) = state.step(Event::Advanced, &table);
    let (_, command) = state.step(Event::Advanced, &table);
    let expected: &[u8] =
        b"HTTP/1.1 200 OK\r\nContent-Type: text/plain\r\nContent-Length: 10\r\n\r\nuser-agent";
    assert_eq!(command, Command::Send(expected.to_vec()));
}

#[test]
fn stream_is_read_as_the_whole_message_would_be() {
    let messages: [&[u8]; 6] = [
        b"GET /echo/abc HTTP/1.1\r\nHost: x\r\n\r\n",
        b"POST /files/f HTTP/1.1\nContent-Length: 4\n\nbody and more",
        b"POST /files/f HTTP/1.1\r\nContent-Length: 4\r\n\r\nbo",
        b"GET /user-agent HTTP/1.1\r\nUser-Agent: a\r\n",
        b"\r\nGET / HTTP/1.1\r\n\r\n",
        b"PUT",
    ];
    for message in messages {
        let (state, _) = read(message, &RouteTable::standard());
        match http_core::message::Request::new(message) {
            Ok(request) => assert_eq!(state, Connection::Parsed { request }),
            Err(_) => assert_eq!(state, Connection::Failed),
        }
    }
}
