//! The message model: what a parsed request and an outgoing response hold.

use crate::text::{ascii, literal};
use vstd::prelude::*;

verus! {

/// The method of a request. A token that names none of the four known
/// methods is `UNKNOWN`.
#[derive(Clone, Copy, Debug, PartialEq, Eq, Structural)]
pub enum RequestType {
    GET,
    POST,
    PUT,
    DELETE,
    UNKNOWN,
}

/// The content encoding that a client accepts and a response announces.
#[allow(non_camel_case_types)]
#[derive(Clone, Copy, Debug, PartialEq, Eq, Structural)]
pub enum CompressionType {
    none,
    gzip,
}

/// The status codes that this server sends.
#[derive(Clone, Copy, Debug, PartialEq, Eq, Structural)]
pub enum StatusCode {
    Okay,
    Created,
    Bad,
    Unauthorized,
    Forbidden,
    NotFound,
}

/// Why a request could not be read.
#[derive(Clone, Copy, Debug, PartialEq, Eq, Structural)]
pub enum ParseError {
    /// The request line has fewer than three tokens.
    MalformedRequestLine,
    /// The input ends before the declared number of body bytes.
    IncompleteBody,
}

/// Why a file operation came to nothing.
#[derive(Clone, Copy, Debug, PartialEq, Eq, Structural)]
pub enum FileError {
    /// There is no file of that name.
    FileNotFound,
    /// The file could not be read, or could not be written.
    FileIOError,
}

/// A parsed request. Text is kept as the bytes that came over the wire.
#[derive(Clone, Debug, PartialEq, Eq)]
pub struct Request {
    pub request_type: RequestType,
    pub content_type: Vec<u8>,
    pub path: Vec<u8>,
    pub protocol: Vec<u8>,
    pub user_agent: Vec<u8>,
    pub host: Vec<u8>,
    pub accept: Vec<u8>,
    pub content_length: usize,
    pub contents: Vec<u8>,
    pub compression_type: CompressionType,
}

/// The mathematical value of a `Request`.
pub struct RequestView {
    pub request_type: RequestType,
    pub content_type: Seq<u8>,
    pub path: Seq<u8>,
    pub protocol: Seq<u8>,
    pub user_agent: Seq<u8>,
    pub host: Seq<u8>,
    pub accept: Seq<u8>,
    pub content_length: nat,
    pub contents: Seq<u8>,
    pub compression_type: CompressionType,
}

impl View for Request {
    type V = RequestView;

    open spec fn view(&self) -> RequestView {
        RequestView {
            request_type: self.request_type,
            content_type: self.content_type@,
            path: self.path@,
            protocol: self.protocol@,
            user_agent: self.user_agent@,
            host: self.host@,
            accept: self.accept@,
            content_length: self.content_length as nat,
            contents: self.contents@,
            compression_type: self.compression_type,
        }
    }
}

impl RequestView {
    /// The body is exactly as long as the content length says.
    pub open spec fn well_formed(self) -> bool {
        self.contents.len() == self.content_length
    }
}

/// An outgoing response.
#[derive(Clone, Debug, PartialEq, Eq)]
pub struct Response {
    pub status_code: StatusCode,
    pub status_message: Vec<u8>,
    pub contents: Vec<u8>,
    pub content_type: Vec<u8>,
    pub content_encoding: CompressionType,
}

/// The mathematical value of a `Response`.
pub struct ResponseView {
    pub status_code: StatusCode,
    pub status_message: Seq<u8>,
    pub contents: Seq<u8>,
    pub content_type: Seq<u8>,
    pub content_encoding: CompressionType,
}

impl View for Response {
    type V = ResponseView;

    open spec fn view(&self) -> ResponseView {
        ResponseView {
            status_code: self.status_code,
            status_message: self.status_message@,
            contents: self.contents@,
            content_type: self.content_type@,
            content_encoding: self.content_encoding,
        }
    }
}

impl StatusCode {
    /// The number that stands in the status line.
    pub open spec fn number(self) -> nat {
        match self {
            StatusCode::Okay => 200,
            StatusCode::Created => 201,
            StatusCode::Bad => 400,
            StatusCode::Unauthorized => 401,
            StatusCode::Forbidden => 403,
            StatusCode::NotFound => 404,
        }
    }

    /// The reason text that goes with the number in the status line.
    pub open spec fn reason_text(self) -> Seq<u8> {
        match self {
            StatusCode::Okay => ascii("OK"@),
            StatusCode::Created => ascii("Created"@),
            StatusCode::Bad => ascii("Bad Request"@),
            StatusCode::Unauthorized => ascii("Unauthorized"@),
            StatusCode::Forbidden => ascii("Forbidden"@),
            StatusCode::NotFound => ascii("Not Found"@),
        }
    }

    /// The number that stands in the status line.
    pub fn code(&self) -> (n: u16)
        ensures
            n == self.number(),
    {
        match self {
            StatusCode::Okay => 200,
            StatusCode::Created => 201,
            StatusCode::Bad => 400,
            StatusCode::Unauthorized => 401,
            StatusCode::Forbidden => 403,
            StatusCode::NotFound => 404,
        }
    }

    /// The reason text that goes with the number in the status line.
    pub fn reason(&self) -> (text: Vec<u8>)
        ensures
            text@ == self.reason_text(),
    {
        proof {
            reveal_strlit("OK");
            reveal_strlit("Created");
            reveal_strlit("Bad Request");
            reveal_strlit("Unauthorized");
            reveal_strlit("Forbidden");
            reveal_strlit("Not Found");
        }
        match self {
            StatusCode::Okay => literal("OK"),
            StatusCode::Created => literal("Created"),
            StatusCode::Bad => literal("Bad Request"),
            StatusCode::Unauthorized => literal("Unauthorized"),
            StatusCode::Forbidden => literal("Forbidden"),
            StatusCode::NotFound => literal("Not Found"),
        }
    }
}

} // verus!
