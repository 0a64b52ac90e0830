//! The request parser: from the bytes of one message to a `Request`.
//!
//! A message is a head of lines, closed by an empty line, and a body. A line
//! ends at a line feed; a carriage return just before the line feed belongs
//! to the line end. The first line is the request line, the others are
//! headers.

use crate::decimal::{length_value, read_length};
use crate::message::{CompressionType, ParseError, Request, RequestType, RequestView};
use crate::text::{
    ascii, copy_range, cut_once, find, first_match, is_text, pieces, rows, same, segments,
    same_text, split_into, split_on, split_once, text, to_uppercase, uppercase_of, CR, LF, SP,
};
use vstd::prelude::*;
use vstd::utf8::{decode_utf8, valid_utf8};

verus! {

/// A line without the carriage return that may close it.
pub open spec fn trim_cr(line: Seq<u8>) -> Seq<u8> {
    if line.len() > 0 && line.last() == CR {
        line.drop_last()
    } else {
        line
    }
}

/// The lines that start at `from` and come before the first empty line. The
/// last line may be cut short by the end of the input; it then keeps every
/// byte it has.
pub open spec fn head_lines_from(input: Seq<u8>, from: int) -> Seq<Seq<u8>>
    decreases input.len() - from,
{
    let k = first_match(input, seq![LF], from);
    if from < 0 || from >= input.len() {
        Seq::empty()
    } else if k < from || k >= input.len() {
        seq![input.subrange(from, input.len() as int)]
    } else if trim_cr(input.subrange(from, k)).len() == 0 {
        Seq::empty()
    } else {
        seq![trim_cr(input.subrange(from, k))] + head_lines_from(input, k + 1)
    }
}

/// The index just behind the empty line that closes the lines starting at
/// `from`, or the length of the input where no empty line comes.
pub open spec fn head_end_from(input: Seq<u8>, from: int) -> int
    decreases input.len() - from,
{
    let k = first_match(input, seq![LF], from);
    if from < 0 || from >= input.len() || k < from || k >= input.len() {
        input.len() as int
    } else if trim_cr(input.subrange(from, k)).len() == 0 {
        k + 1
    } else {
        head_end_from(input, k + 1)
    }
}

/// The lines of the head of a message.
pub open spec fn head_lines(input: Seq<u8>) -> Seq<Seq<u8>> {
    head_lines_from(input, 0)
}

/// The number of bytes that the head takes, its closing empty line included.
pub open spec fn head_len(input: Seq<u8>) -> int {
    head_end_from(input, 0)
}

/// The line, taken with its line feed, is the empty line that closes a head.
pub open spec fn is_closing_line(line: Seq<u8>) -> bool {
    line == seq![LF] || line == seq![CR, LF]
}

/// The line is a header with the given name: the text before its first
/// colon-and-space is that name.
pub open spec fn is_header(line: Seq<u8>, name: Seq<u8>) -> bool {
    match split_once(line, ascii(": "@)) {
        Some(pair) => pair.0 == name,
        None => false,
    }
}

/// What follows the first colon-and-space of a line.
pub open spec fn value_of(line: Seq<u8>) -> Seq<u8> {
    match split_once(line, ascii(": "@)) {
        Some(pair) => pair.1,
        None => Seq::empty(),
    }
}

/// The value of the last header with the given name; empty where there is
/// no such header.
pub open spec fn header_value(headers: Seq<Seq<u8>>, name: Seq<u8>) -> Seq<u8>
    decreases headers.len(),
{
    if headers.len() == 0 {
        Seq::empty()
    } else if is_header(headers.last(), name) {
        value_of(headers.last())
    } else {
        header_value(headers.drop_last(), name)
    }
}

/// The content length that the headers declare: the length that the last
/// `Content-Length` header writes, or zero where that is missing or writes
/// none.
pub open spec fn content_length_of(headers: Seq<Seq<u8>>) -> nat {
    length_value(header_value(headers, ascii("Content-Length"@)))
}

/// One of the tokens of the value, which commas followed by a space
/// separate, is `gzip`.
pub open spec fn offers_gzip(value: Seq<u8>) -> bool {
    pieces(value, ascii(", "@)).contains(ascii("gzip"@))
}

/// Some `Accept-Encoding` header offers `gzip`.
pub open spec fn accepts_gzip(headers: Seq<Seq<u8>>) -> bool {
    exists|i: int|
        0 <= i < headers.len() && is_header(#[trigger] headers[i], ascii("Accept-Encoding"@))
            && offers_gzip(value_of(headers[i]))
}

/// The method that a name in upper case names.
pub open spec fn method_named(name: Seq<char>) -> RequestType {
    if name =~= "GET"@ {
        RequestType::GET
    } else if name =~= "PUT"@ {
        RequestType::PUT
    } else if name =~= "POST"@ {
        RequestType::POST
    } else if name =~= "DELETE"@ {
        RequestType::DELETE
    } else {
        RequestType::UNKNOWN
    }
}

/// The method that a token names, whatever the case of its letters: the one
/// that its upper-case form names. A token that is no text names none.
pub open spec fn method_of(token: Seq<u8>) -> RequestType {
    if valid_utf8(token) {
        method_named(uppercase_of(decode_utf8(token)))
    } else {
        RequestType::UNKNOWN
    }
}

/// The tokens of the request line: the non-empty pieces between spaces of the
/// first line, none where the head has no line.
pub open spec fn request_line_tokens(input: Seq<u8>) -> Seq<Seq<u8>> {
    if head_lines(input).len() > 0 {
        segments(head_lines(input)[0], SP)
    } else {
        Seq::empty()
    }
}

/// The header lines: all lines of the head but the first.
pub open spec fn header_lines(input: Seq<u8>) -> Seq<Seq<u8>> {
    if head_lines(input).len() > 0 {
        head_lines(input).skip(1)
    } else {
        Seq::empty()
    }
}

/// The number of body bytes that the head of the message asks for.
pub open spec fn declared_length(input: Seq<u8>) -> nat {
    content_length_of(header_lines(input))
}

/// The bytes that follow the head.
pub open spec fn after_head(input: Seq<u8>) -> Seq<u8> {
    input.subrange(head_len(input), input.len() as int)
}

/// What the bytes of one message parse to.
///
/// A request line with fewer than three tokens is malformed. Otherwise the
/// first three tokens are method, path and protocol version, the recognised
/// headers give their values, and the body is as many bytes behind the head
/// as the content length says; where fewer are there, the body is
/// incomplete.
pub open spec fn parse_request(input: Seq<u8>) -> Result<RequestView, ParseError> {
    let tokens = request_line_tokens(input);
    let headers = header_lines(input);
    let length = declared_length(input);
    if tokens.len() < 3 {
        Err(ParseError::MalformedRequestLine)
    } else if after_head(input).len() < length {
        Err(ParseError::IncompleteBody)
    } else {
        Ok(
            RequestView {
                request_type: method_of(tokens[0]),
                content_type: header_value(headers, ascii("Content-Type"@)),
                path: tokens[1],
                protocol: tokens[2],
                user_agent: header_value(headers, ascii("User-Agent"@)),
                host: header_value(headers, ascii("Host"@)),
                accept: header_value(headers, ascii("Accept"@)),
                content_length: length,
                contents: after_head(input).take(length as int),
                compression_type: if accepts_gzip(headers) {
                    CompressionType::gzip
                } else {
                    CompressionType::none
                },
            },
        )
    }
}

/// The lines between `from` and the end of the head are in range.
pub proof fn lemma_head_end_bounds(input: Seq<u8>, from: int)
    requires
        0 <= from <= input.len(),
    ensures
        from <= head_end_from(input, from) <= input.len(),
    decreases input.len() - from,
{
    let k = first_match(input, seq![LF], from);
    if from < input.len() && from <= k < input.len() && trim_cr(input.subrange(from, k)).len()
        != 0 {
        lemma_head_end_bounds(input, k + 1);
    }
}

/// Whether a line as it came, its line feed included, is the empty line that
/// closes a head.
pub fn closes_head(line: &[u8]) -> (r: bool)
    ensures
        r == is_closing_line(line@),
{
    if line.len() == 1 {
        assert(line@ =~= seq![line@[0]]);
        line[0] == LF
    } else if line.len() == 2 {
        assert(line@ =~= seq![line@[0], line@[1]]);
        line[0] == CR && line[1] == LF
    } else {
        false
    }
}

/// The value of the last header named `name`; empty where none is.
pub fn find_header(headers: &Vec<Vec<u8>>, name: &[u8]) -> (value: Vec<u8>)
    ensures
        value@ == header_value(rows(headers@), name@),
{
    let mut i: usize = headers.len();
    assert(rows(headers@).take(i as int) =~= rows(headers@));
    while i > 0
        invariant
            i <= headers.len(),
            header_value(rows(headers@), name@) == header_value(
                rows(headers@).take(i as int),
                name@,
            ),
        decreases i,
    {
        i -= 1;
        proof {
            reveal_strlit(": ");
            let upto = rows(headers@).take(i + 1);
            assert(upto.last() == headers@[i as int]@);
            assert(upto.drop_last() =~= rows(headers@).take(i as int));
        }
        match cut_once(headers[i].as_slice(), text(": ")) {
            Some(pair) => {
                if same(pair.0.as_slice(), name) {
                    return pair.1;
                }
            },
            None => {},
        }
    }
    Vec::new()
}

/// Whether one of the comma-separated tokens of `value` is `gzip`.
pub fn value_offers_gzip(value: &[u8]) -> (r: bool)
    ensures
        r == offers_gzip(value@),
{
    proof {
        reveal_strlit(", ");
        reveal_strlit("gzip");
    }
    let tokens = split_on(value, text(", "));
    let mut i: usize = 0;
    while i < tokens.len()
        invariant
            i <= tokens.len(),
            "gzip".is_ascii(),
            rows(tokens@) == pieces(value@, ascii(", "@)),
            forall|j: int| 0 <= j < i ==> rows(tokens@)[j] != ascii("gzip"@),
        decreases tokens.len() - i,
    {
        if is_text(tokens[i].as_slice(), "gzip") {
            assert(rows(tokens@)[i as int] == ascii("gzip"@));
            return true;
        }
        i += 1;
    }
    false
}

/// Whether some `Accept-Encoding` header among `headers` offers `gzip`.
pub fn headers_accept_gzip(headers: &Vec<Vec<u8>>) -> (r: bool)
    ensures
        r == accepts_gzip(rows(headers@)),
{
    let mut i: usize = 0;
    while i < headers.len()
        invariant
            i <= headers.len(),
            forall|j: int|
                0 <= j < i ==> !(is_header(
                    #[trigger] rows(headers@)[j],
                    ascii("Accept-Encoding"@),
                ) && offers_gzip(value_of(rows(headers@)[j]))),
        decreases headers.len() - i,
    {
        proof {
            reveal_strlit(": ");
            reveal_strlit("Accept-Encoding");
        }
        match cut_once(headers[i].as_slice(), text(": ")) {
            Some(pair) => {
                if is_text(pair.0.as_slice(), "Accept-Encoding") && value_offers_gzip(
                    pair.1.as_slice(),
                ) {
                    assert(is_header(rows(headers@)[i as int], ascii("Accept-Encoding"@)));
                    return true;
                }
            },
            None => {},
        }
        i += 1;
    }
    false
}

/// The method that a name in upper case names.
pub fn name_method(name: &str) -> (method: RequestType)
    ensures
        method == method_named(name@),
{
    if same_text(name, "GET") {
        RequestType::GET
    } else if same_text(name, "PUT") {
        RequestType::PUT
    } else if same_text(name, "POST") {
        RequestType::POST
    } else if same_text(name, "DELETE") {
        RequestType::DELETE
    } else {
        RequestType::UNKNOWN
    }
}

/// The method that `token` names.
pub fn read_method(token: &[u8]) -> (method: RequestType)
    ensures
        method == method_of(token@),
{
    match to_uppercase(token) {
        Some(name) => name_method(name.as_str()),
        None => RequestType::UNKNOWN,
    }
}

/// The content length that `headers` declare; nothing where it is beyond
/// what a `usize` holds.
pub fn read_content_length(headers: &Vec<Vec<u8>>) -> (r: Option<usize>)
    ensures
        match r {
            Some(n) => n == content_length_of(rows(headers@)),
            None => content_length_of(rows(headers@)) > usize::MAX,
        },
{
    proof {
        reveal_strlit("Content-Length");
    }
    let value = find_header(headers, text("Content-Length"));
    read_length(value.as_slice())
}

impl Request {
    /// Splits the head of a message into its lines and says where the head
    /// ends.
    pub fn split_request(input: &[u8]) -> (head: (Vec<Vec<u8>>, usize))
        ensures
            rows(head.0@) == head_lines(input@),
            head.1 == head_len(input@),
            head.1 <= input.len(),
    {
        let mut lines: Vec<Vec<u8>> = Vec::new();
        let mut pos: usize = 0;
        let lf: Vec<u8> = vec![LF];
        assert(lf@ =~= seq![LF]);
        while pos < input.len()
            invariant
                pos <= input.len(),
                lf@ == seq![LF],
                head_lines(input@) == rows(lines@) + head_lines_from(input@, pos as int),
                head_len(input@) == head_end_from(input@, pos as int),
            decreases input.len() - pos,
        {
            let ghost before = rows(lines@);
            let k = find(input, lf.as_slice(), pos);
            if k >= input.len() {
                lines.push(copy_range(input, pos, input.len()));
                assert(rows(lines@) =~= before + head_lines_from(input@, pos as int));
                return (lines, input.len());
            }
            let end = if k > pos && input[k - 1] == CR {
                k - 1
            } else {
                k
            };
            assert(trim_cr(input@.subrange(pos as int, k as int)) =~= input@.subrange(
                pos as int,
                end as int,
            ));
            if end == pos {
                assert(rows(lines@) =~= before + head_lines_from(input@, pos as int));
                return (lines, k + 1);
            }
            lines.push(copy_range(input, pos, end));
            assert(rows(lines@) =~= before + seq![input@.subrange(pos as int, end as int)]);
            pos = k + 1;
        }
        assert(rows(lines@) =~= rows(lines@) + head_lines_from(input@, pos as int));
        (lines, pos)
    }

    /// Parses the bytes of one message.
    pub fn new(input: &[u8]) -> (r: Result<Request, ParseError>)
        ensures
            match r {
                Ok(request) => parse_request(input@) == Ok::<RequestView, ParseError>(request@)
                    && request@.well_formed(),
                Err(e) => parse_request(input@) == Err::<RequestView, ParseError>(e),
            },
    {
        let (mut lines, end) = Request::split_request(input);
        if lines.len() == 0 {
            return Err(ParseError::MalformedRequestLine);
        }
        let ghost all = rows(lines@);
        let first = lines.remove(0);
        assert(rows(lines@) =~= all.skip(1));
        assert(first@ == all[0]);
        let mut tokens = split_into(first.as_slice(), SP);
        if tokens.len() < 3 {
            return Err(ParseError::MalformedRequestLine);
        }
        let available = input.len() - end;
        let content_length = match read_content_length(&lines) {
            Some(length) => length,
            None => {
                return Err(ParseError::IncompleteBody);
            },
        };
        if available < content_length {
            return Err(ParseError::IncompleteBody);
        }
        let contents = copy_range(input, end, end + content_length);
        assert(contents@ =~= after_head(input@).take(content_length as int));
        proof {
            reveal_strlit("Content-Type");
            reveal_strlit("User-Agent");
            reveal_strlit("Host");
            reveal_strlit("Accept");
        }
        let request_type = read_method(tokens[0].as_slice());
        let ghost names = rows(tokens@);
        let protocol = tokens.swap_remove(2);
        let path = tokens.swap_remove(1);
        assert(protocol@ == names[2] && path@ == names[1]);
        Ok(
            Request {
                request_type,
                content_type: find_header(&lines, text("Content-Type")),
                path,
                protocol,
                user_agent: find_header(&lines, text("User-Agent")),
                host: find_header(&lines, text("Host")),
                accept: find_header(&lines, text("Accept")),
                content_length,
                contents,
                compression_type: if headers_accept_gzip(&lines) {
                    CompressionType::gzip
                } else {
                    CompressionType::none
                },
            },
        )
    }

    /// The number of body bytes that the head of `input` asks for, whatever
    /// follows the head; nothing where it is beyond what a `usize` holds.
    pub fn expected_body(input: &[u8]) -> (r: Option<usize>)
        ensures
            match r {
                Some(n) => n == declared_length(input@),
                None => declared_length(input@) > usize::MAX,
            },
    {
        let (mut lines, _end) = Request::split_request(input);
        if lines.len() == 0 {
            assert(header_lines(input@) =~= Seq::<Seq<u8>>::empty());
            assert(rows(lines@) =~= header_lines(input@));
        } else {
            let ghost all = rows(lines@);
            let _first = lines.remove(0);
            assert(rows(lines@) =~= all.skip(1));
        }
        read_content_length(&lines)
    }
}

} // verus!
