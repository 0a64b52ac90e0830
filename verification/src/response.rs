//! The response serializer: from a `Response` to the bytes on the wire.

use crate::decimal::{append_decimal, decimal};
use crate::message::{CompressionType, Response, ResponseView, StatusCode};
use crate::text::{append, append_text, ascii, literal, CR, LF, SP};
use vstd::prelude::*;
use vstd::utf8::{encode_utf8, valid_utf8};

verus! {

/// The line end of the protocol.
pub open spec fn crlf() -> Seq<u8> {
    seq![CR, LF]
}

/// Text that can stand in a line of the head: it holds no line end.
pub open spec fn header_safe(s: Seq<u8>) -> bool {
    forall|i: int| 0 <= i < s.len() ==> #[trigger] s[i] != CR && s[i] != LF
}

impl ResponseView {
    /// Status message and content type can each stand in one line.
    pub open spec fn well_formed(self) -> bool {
        header_safe(self.status_message) && header_safe(self.content_type)
    }
}

/// The status line, without its line end.
pub open spec fn status_line(r: ResponseView) -> Seq<u8> {
    ascii("HTTP/1.1 "@) + decimal(r.status_code.number()) + seq![SP] + r.status_message
}

/// The content type header, without its line end.
pub open spec fn type_line(r: ResponseView) -> Seq<u8> {
    ascii("Content-Type: "@) + r.content_type
}

/// The content encoding header with its line end, or nothing where the
/// response announces no encoding.
pub open spec fn encoding_lines(r: ResponseView) -> Seq<u8> {
    match r.content_encoding {
        CompressionType::none => Seq::empty(),
        CompressionType::gzip => ascii("Content-Encoding: gzip"@) + crlf(),
    }
}

/// The content length header, without its line end: the number of bytes of
/// the body as it is sent.
pub open spec fn length_line(r: ResponseView) -> Seq<u8> {
    ascii("Content-Length: "@) + decimal(r.contents.len())
}

/// The bytes of a response on the wire.
pub open spec fn wire(r: ResponseView) -> Seq<u8> {
    status_line(r) + crlf() + type_line(r) + crlf() + encoding_lines(r) + length_line(r) + crlf()
        + crlf() + r.contents
}

/// The value of a response with the given status, whose status message is
/// the reason text of that status.
pub open spec fn status_view(
    status_code: StatusCode,
    contents: Seq<u8>,
    content_type: Seq<u8>,
    content_encoding: CompressionType,
) -> ResponseView {
    ResponseView {
        status_code,
        status_message: status_code.reason_text(),
        contents,
        content_type,
        content_encoding,
    }
}

/// The value of the response that answers what is not there.
pub open spec fn not_found_view() -> ResponseView {
    status_view(
        StatusCode::NotFound,
        Seq::empty(),
        ascii("text/plain"@),
        CompressionType::none,
    )
}

/// The reason text of every status can stand in the status line.
pub proof fn lemma_reason_header_safe(status_code: StatusCode)
    ensures
        header_safe(status_code.reason_text()),
{
    reveal_strlit("OK");
    reveal_strlit("Created");
    reveal_strlit("Bad Request");
    reveal_strlit("Unauthorized");
    reveal_strlit("Forbidden");
    reveal_strlit("Not Found");
}

impl Response {
    /// The bytes of the response on the wire. The body is copied as it is,
    /// whatever it holds.
    pub fn to_bytes(&self) -> (out: Vec<u8>)
        ensures
            out@ == wire(self@),
    {
        proof {
            reveal_strlit("HTTP/1.1 ");
            reveal_strlit("Content-Type: ");
            reveal_strlit("Content-Encoding: gzip");
            reveal_strlit("Content-Length: ");
        }
        let eol: Vec<u8> = vec![CR, LF];
        assert(eol@ =~= crlf());
        let mut out: Vec<u8> = Vec::new();
        append_text(&mut out, "HTTP/1.1 ");
        append_decimal(&mut out, self.status_code.code() as usize);
        out.push(SP);
        append(&mut out, self.status_message.as_slice());
        assert(out@ =~= status_line(self@));
        append(&mut out, eol.as_slice());
        append_text(&mut out, "Content-Type: ");
        append(&mut out, self.content_type.as_slice());
        append(&mut out, eol.as_slice());
        assert(out@ =~= status_line(self@) + crlf() + type_line(self@) + crlf());
        match self.content_encoding {
            CompressionType::none => {},
            CompressionType::gzip => {
                append_text(&mut out, "Content-Encoding: gzip");
                append(&mut out, eol.as_slice());
            },
        }
        assert(out@ =~= status_line(self@) + crlf() + type_line(self@) + crlf() + encoding_lines(
            self@,
        ));
        append_text(&mut out, "Content-Length: ");
        append_decimal(&mut out, self.contents.len());
        append(&mut out, eol.as_slice());
        append(&mut out, eol.as_slice());
        append(&mut out, self.contents.as_slice());
        assert(out@ =~= wire(self@));
        out
    }

    /// The response on the wire as text, where its bytes are valid UTF-8;
    /// nothing where they are not.
    pub fn to_string(&self) -> (r: Option<String>)
        ensures
            r is Some <==> valid_utf8(wire(self@)),
            r is Some ==> encode_utf8(r->0@) == wire(self@),
    {
        match String::from_utf8(self.to_bytes()) {
            Ok(text) => Some(text),
            Err(_) => None,
        }
    }

    /// A response with the given status, whose status message is the reason
    /// text of that status.
    pub fn with_status(
        status_code: StatusCode,
        contents: Vec<u8>,
        content_type: &str,
        content_encoding: CompressionType,
    ) -> (r: Response)
        requires
            content_type.is_ascii(),
        ensures
            r@ == status_view(status_code, contents@, ascii(content_type@), content_encoding),
    {
        Response {
            status_code,
            status_message: status_code.reason(),
            contents,
            content_type: literal(content_type),
            content_encoding,
        }
    }

    /// The response that answers what is not there: 404, no body.
    pub fn not_found() -> (r: Response)
        ensures
            r@ == not_found_view(),
            r@.well_formed(),
    {
        proof {
            reveal_strlit("text/plain");
            lemma_reason_header_safe(StatusCode::NotFound);
        }
        Response::with_status(
            StatusCode::NotFound,
            Vec::new(),
            "text/plain",
            CompressionType::none,
        )
    }
}

} // verus!
