//! Dispatch: from a parsed request to the response, or to the one file
//! operation whose outcome decides the response.
//!
//! The files live beneath a root directory that only the caller can reach.
//! So a request for a file is answered in two steps: `process_request` names
//! the operation, the caller performs it, and `file_read_response` or
//! `file_append_response` turns what came of it into the response. The name
//! of the file is the path segment as it came; keeping it beneath the root
//! is the caller's duty.

use crate::message::{
    CompressionType, FileError, Request, RequestType, RequestView, Response, ResponseView,
    StatusCode,
};
use crate::response::{header_safe, lemma_reason_header_safe, not_found_view, status_view};
use crate::routes::{
    captured, lemma_first_route_is, lookup, pattern_fits, segment_fits, standard_table, Handler,
    RouteTable, RouteView,
};
use crate::text::{ascii, free_of, lemma_segments_clean, segments, split_into, SLASH};
use vstd::prelude::*;

verus! {

/// What is to be done for a request.
#[derive(Clone, Debug, PartialEq, Eq)]
pub enum Dispatch {
    /// Send this response.
    Respond(Response),
    /// Read the named file, then answer with `file_read_response`.
    ReadFile { name: Vec<u8>, encoding: CompressionType },
    /// Append the contents to the named file, creating it where it is
    /// missing, then answer with `file_append_response`.
    AppendFile { name: Vec<u8>, contents: Vec<u8>, encoding: CompressionType },
}

/// The mathematical value of a `Dispatch`.
pub enum DispatchView {
    Respond(ResponseView),
    ReadFile { name: Seq<u8>, encoding: CompressionType },
    AppendFile { name: Seq<u8>, contents: Seq<u8>, encoding: CompressionType },
}

impl View for Dispatch {
    type V = DispatchView;

    open spec fn view(&self) -> DispatchView {
        match self {
            Dispatch::Respond(response) => DispatchView::Respond(response@),
            Dispatch::ReadFile { name, encoding } => DispatchView::ReadFile {
                name: name@,
                encoding: *encoding,
            },
            Dispatch::AppendFile { name, contents, encoding } => DispatchView::AppendFile {
                name: name@,
                contents: contents@,
                encoding: *encoding,
            },
        }
    }
}

/// A 200 response with the given body and content type.
pub open spec fn ok_view(
    contents: Seq<u8>,
    content_type: Seq<u8>,
    encoding: CompressionType,
) -> ResponseView {
    status_view(StatusCode::Okay, contents, content_type, encoding)
}

/// The 201 response that follows a write.
pub open spec fn created_view(encoding: CompressionType) -> ResponseView {
    status_view(StatusCode::Created, Seq::empty(), ascii("text/plain"@), encoding)
}

/// The route of a request, by its method and the segments of its path.
///
/// `GET` of the empty path or of `index.html` is answered with an empty 200;
/// of `user-agent`, with the `User-Agent` header; of `echo/x`, with `x`; of
/// `files/x`, by reading the file `x`. `POST` of `files/x` appends the body
/// to the file `x`. Everything else is not found.
pub open spec fn route(request: RequestView) -> DispatchView {
    let path = segments(request.path, SLASH);
    let encoding = request.compression_type;
    let plain = ascii("text/plain"@);
    if request.request_type == RequestType::GET {
        if path.len() == 0 || (path.len() == 1 && path[0] == ascii("index.html"@)) {
            DispatchView::Respond(ok_view(Seq::empty(), plain, encoding))
        } else if path.len() == 1 && path[0] == ascii("user-agent"@) {
            DispatchView::Respond(ok_view(request.user_agent, plain, encoding))
        } else if path.len() == 2 && path[0] == ascii("echo"@) {
            DispatchView::Respond(ok_view(path[1], plain, encoding))
        } else if path.len() == 2 && path[0] == ascii("files"@) {
            DispatchView::ReadFile { name: path[1], encoding }
        } else {
            DispatchView::Respond(not_found_view())
        }
    } else if request.request_type == RequestType::POST && path.len() == 2 && path[0] == ascii(
        "files"@,
    ) {
        DispatchView::AppendFile { name: path[1], contents: request.contents, encoding }
    } else {
        DispatchView::Respond(not_found_view())
    }
}

/// The response to a read: the bytes of the file with 200, or not found
/// where there is no such file or it could not be read.
pub open spec fn read_outcome(
    outcome: Result<Seq<u8>, FileError>,
    encoding: CompressionType,
) -> ResponseView {
    match outcome {
        Ok(bytes) => ok_view(bytes, ascii("application/octet-stream"@), encoding),
        Err(_) => not_found_view(),
    }
}

/// The response to a write: 201 where it was done, not found where it
/// failed.
pub open spec fn append_outcome(
    outcome: Result<(), FileError>,
    encoding: CompressionType,
) -> ResponseView {
    match outcome {
        Ok(_) => created_view(encoding),
        Err(_) => not_found_view(),
    }
}

/// A 200 response with the given body and content type.
pub fn ok_response(contents: Vec<u8>, content_type: &str, encoding: CompressionType) -> (r:
    Response)
    requires
        content_type.is_ascii(),
    ensures
        r@ == ok_view(contents@, ascii(content_type@), encoding),
{
    Response::with_status(StatusCode::Okay, contents, content_type, encoding)
}

/// What a handler does with a request and with what its route captured.
pub open spec fn handle(handler: Handler, capture: Seq<u8>, request: RequestView) -> DispatchView {
    let encoding = request.compression_type;
    let plain = ascii("text/plain"@);
    match handler {
        Handler::Empty => DispatchView::Respond(ok_view(Seq::empty(), plain, encoding)),
        Handler::UserAgent => DispatchView::Respond(ok_view(request.user_agent, plain, encoding)),
        Handler::Echo => DispatchView::Respond(ok_view(capture, plain, encoding)),
        Handler::ReadFile => DispatchView::ReadFile { name: capture, encoding },
        Handler::AppendFile => DispatchView::AppendFile {
            name: capture,
            contents: request.contents,
            encoding,
        },
    }
}

/// What a table makes of a request: the handler of the first route that
/// fits its method and the segments of its path, or not found where none
/// fits.
pub open spec fn route_with(table: Seq<RouteView>, request: RequestView) -> DispatchView {
    match lookup(table, request.request_type, segments(request.path, SLASH)) {
        Some(found) => handle(found.0, found.1, request),
        None => DispatchView::Respond(not_found_view()),
    }
}

/// The table of this server routes every request as `route` says.
pub proof fn lemma_standard_table_routes(request: RequestView)
    ensures
        route_with(standard_table(), request) == route(request),
{
    reveal_strlit("index.html");
    reveal_strlit("user-agent");
    reveal_strlit("echo");
    reveal_strlit("files");
    let table = standard_table();
    let method = request.request_type;
    let path = segments(request.path, SLASH);
    let index = ascii("index.html"@);
    let agent = ascii("user-agent"@);
    let echo = ascii("echo"@);
    let files = ascii("files"@);
    assert(index[0] != agent[0]);
    assert(echo.len() != files.len());
    assert(pattern_fits(table[0].pattern, path) <==> path.len() == 0);
    assert(pattern_fits(table[1].pattern, path) <==> path.len() == 1 && path[0] == index) by {
        if path.len() == 1 && path[0] == index {
            assert(segment_fits(table[1].pattern[0], path[0]));
        }
        if pattern_fits(table[1].pattern, path) {
            assert(segment_fits(table[1].pattern[0], path[0]));
        }
    }
    assert(pattern_fits(table[2].pattern, path) <==> path.len() == 1 && path[0] == agent) by {
        if path.len() == 1 && path[0] == agent {
            assert(segment_fits(table[2].pattern[0], path[0]));
        }
        if pattern_fits(table[2].pattern, path) {
            assert(segment_fits(table[2].pattern[0], path[0]));
        }
    }
    assert(pattern_fits(table[3].pattern, path) <==> path.len() == 2 && path[0] == echo) by {
        if path.len() == 2 && path[0] == echo {
            assert(segment_fits(table[3].pattern[0], path[0]));
            assert(segment_fits(table[3].pattern[1], path[1]));
        }
        if pattern_fits(table[3].pattern, path) {
            assert(segment_fits(table[3].pattern[0], path[0]));
        }
    }
    assert(pattern_fits(table[4].pattern, path) <==> path.len() == 2 && path[0] == files) by {
        if path.len() == 2 && path[0] == files {
            assert(segment_fits(table[4].pattern[0], path[0]));
            assert(segment_fits(table[4].pattern[1], path[1]));
        }
        if pattern_fits(table[4].pattern, path) {
            assert(segment_fits(table[4].pattern[0], path[0]));
        }
    }
    assert(table[5].pattern == table[4].pattern);
    let k: int = if method == RequestType::GET {
        if path.len() == 0 {
            0
        } else if path.len() == 1 && path[0] == index {
            1
        } else if path.len() == 1 && path[0] == agent {
            2
        } else if path.len() == 2 && path[0] == echo {
            3
        } else if path.len() == 2 && path[0] == files {
            4
        } else {
            6
        }
    } else if method == RequestType::POST && path.len() == 2 && path[0] == files {
        5
    } else {
        6
    };
    lemma_first_route_is(table, method, path, 0, k);
    if k == 3 || k == 4 || k == 5 {
        let pattern = table[k].pattern;
        assert(pattern.last() is Capture);
        assert(captured(pattern, path) == path[1]);
    }
}

/// Decides by the routes of `table` what is to be done for `request`.
pub fn dispatch(table: &RouteTable, request: &Request) -> (action: Dispatch)
    ensures
        action@ == route_with(table@, request@),
{
    proof {
        reveal_strlit("text/plain");
    }
    let path = split_into(request.path.as_slice(), SLASH);
    let encoding = request.compression_type;
    match table.find(request.request_type, &path) {
        Some(found) => {
            let (handler, capture) = found;
            match handler {
                Handler::Empty => Dispatch::Respond(
                    ok_response(Vec::new(), "text/plain", encoding),
                ),
                Handler::UserAgent => Dispatch::Respond(
                    ok_response(request.user_agent.clone(), "text/plain", encoding),
                ),
                Handler::Echo => Dispatch::Respond(ok_response(capture, "text/plain", encoding)),
                Handler::ReadFile => Dispatch::ReadFile { name: capture, encoding },
                Handler::AppendFile => Dispatch::AppendFile {
                    name: capture,
                    contents: request.contents.clone(),
                    encoding,
                },
            }
        },
        None => Dispatch::Respond(Response::not_found()),
    }
}

/// Decides what is to be done for `request`, by the table of this server.
pub fn process_request(request: &Request) -> (action: Dispatch)
    ensures
        action@ == route(request@),
{
    proof {
        lemma_standard_table_routes(request@);
    }
    dispatch(&RouteTable::standard(), request)
}

/// The response once a file has been read, or could not be.
pub fn file_read_response(outcome: Result<Vec<u8>, FileError>, encoding: CompressionType) -> (r:
    Response)
    ensures
        r@ == read_outcome(
            match outcome {
                Ok(bytes) => Ok(bytes@),
                Err(e) => Err(e),
            },
            encoding,
        ),
{
    proof {
        reveal_strlit("application/octet-stream");
    }
    match outcome {
        Ok(bytes) => ok_response(bytes, "application/octet-stream", encoding),
        Err(_) => Response::not_found(),
    }
}

/// The response once a file has been written to, or could not be.
pub fn file_append_response(outcome: Result<(), FileError>, encoding: CompressionType) -> (r:
    Response)
    ensures
        r@ == append_outcome(outcome, encoding),
{
    proof {
        reveal_strlit("text/plain");
    }
    match outcome {
        Ok(_) => Response::with_status(StatusCode::Created, Vec::new(), "text/plain", encoding),
        Err(_) => Response::not_found(),
    }
}

/// Every response that dispatch decides on, at once or after a file
/// operation, is well formed: its status message and content type stand in
/// one line each.
pub proof fn lemma_responses_well_formed(
    request: RequestView,
    read: Result<Seq<u8>, FileError>,
    written: Result<(), FileError>,
    encoding: CompressionType,
)
    ensures
        route(request) is Respond ==> route(request)->Respond_0.well_formed(),
        read_outcome(read, encoding).well_formed(),
        append_outcome(written, encoding).well_formed(),
{
    reveal_strlit("text/plain");
    reveal_strlit("application/octet-stream");
    lemma_reason_header_safe(StatusCode::Okay);
    lemma_reason_header_safe(StatusCode::Created);
    lemma_reason_header_safe(StatusCode::NotFound);
    assert(header_safe(ascii("text/plain"@)));
    assert(header_safe(ascii("application/octet-stream"@)));
}

/// The name of a file that dispatch hands out is one segment of the path:
/// it is not empty and holds no slash. (It may still be `.` or `..`: the
/// caller is to keep it beneath the root.)
pub proof fn lemma_file_name_is_a_segment(request: RequestView)
    ensures
        match route(request) {
            DispatchView::ReadFile { name, encoding } => name.len() > 0 && free_of(name, SLASH),
            DispatchView::AppendFile { name, contents, encoding } => name.len() > 0 && free_of(
                name,
                SLASH,
            ),
            DispatchView::Respond(_) => true,
        },
{
    lemma_segments_clean(request.path, SLASH);
}

} // verus!
