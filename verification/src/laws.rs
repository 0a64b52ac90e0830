//! What holds of parser and serializer together: how a message that is put
//! together from lines and a body reads back.

use crate::decimal::{decimal, is_digit, lemma_decimal_digits, lemma_length_of_decimal};
use crate::message::{CompressionType, ParseError, RequestView, ResponseView};
use crate::request::{
    after_head, content_length_of, declared_length, head_end_from, head_len, head_lines,
    head_lines_from, header_lines, is_header, lemma_head_end_bounds, method_of, parse_request,
    request_line_tokens, trim_cr, value_of,
};
use crate::response::{crlf, header_safe, length_line, status_line, type_line, wire};
use crate::text::{
    ascii, first_match, free_of, join, lemma_first_byte_is, lemma_first_match,
    lemma_first_match_is, lemma_first_match_shift, lemma_segments_clean, lemma_segments_of_join,
    matches_at, segments, split_once, CR, LF, SP,
};
use vstd::prelude::*;

verus! {

/// A line that can stand in a head: not empty, without a line feed, and not
/// closed by a carriage return of its own.
pub open spec fn plain_line(line: Seq<u8>) -> bool {
    &&& line.len() > 0
    &&& line.last() != CR
    &&& forall|i: int| 0 <= i < line.len() ==> #[trigger] line[i] != LF
}

/// The head that the lines make: each with its line end, then the empty
/// line.
pub open spec fn head_of(lines: Seq<Seq<u8>>) -> Seq<u8>
    decreases lines.len(),
{
    if lines.len() == 0 {
        crlf()
    } else {
        lines[0] + crlf() + head_of(lines.skip(1))
    }
}

/// The lines of the second of two joined strings are the lines of the whole
/// from the joint on.
pub proof fn lemma_head_shift(a: Seq<u8>, b: Seq<u8>, i: int)
    requires
        0 <= i <= b.len(),
    ensures
        head_lines_from(a + b, a.len() + i) == head_lines_from(b, i),
        head_end_from(a + b, a.len() + i) == a.len() + head_end_from(b, i),
    decreases b.len() - i,
{
    let lf = seq![LF];
    if i < b.len() {
        lemma_first_match_shift(a, b, lf, i);
        lemma_first_match(b, lf, i);
        let k = first_match(b, lf, i);
        if k < b.len() {
            assert((a + b).subrange(a.len() + i, a.len() + k) =~= b.subrange(i, k));
            if trim_cr(b.subrange(i, k)).len() != 0 {
                lemma_head_shift(a, b, k + 1);
            }
        } else {
            assert((a + b).subrange(a.len() + i, (a + b).len() as int) =~= b.subrange(
                i,
                b.len() as int,
            ));
        }
    }
}

/// A plain line, its line end and anything behind them read as that line
/// and then what the rest reads as.
pub proof fn lemma_head_step(line: Seq<u8>, rest: Seq<u8>)
    requires
        plain_line(line),
    ensures
        head_lines(line + crlf() + rest) == seq![line] + head_lines(rest),
        head_len(line + crlf() + rest) == line.len() + 2 + head_len(rest),
{
    let a = line + crlf();
    let input = a + rest;
    let k = line.len() as int;
    assert(input[k + 1] == LF);
    assert forall|j: int| 0 <= j < k + 1 implies input[j] != LF by {
        if j < k {
            assert(input[j] == line[j]);
        }
    }
    lemma_first_byte_is(input, LF, 0, k + 1);
    assert(input.subrange(0, k + 1) =~= line.push(CR));
    assert(line.push(CR).drop_last() =~= line);
    assert(trim_cr(input.subrange(0, k + 1)) == line);
    lemma_head_shift(a, rest, 0);
}

/// A message made of plain lines, the empty line and a body reads back as
/// those lines, and its head ends where the body begins.
pub proof fn lemma_head_of_lines(lines: Seq<Seq<u8>>, body: Seq<u8>)
    requires
        forall|i: int| 0 <= i < lines.len() ==> plain_line(#[trigger] lines[i]),
    ensures
        head_lines(head_of(lines) + body) == lines,
        head_len(head_of(lines) + body) == head_of(lines).len(),
        after_head(head_of(lines) + body) == body,
    decreases lines.len(),
{
    let input = head_of(lines) + body;
    if lines.len() == 0 {
        assert(input[1] == LF);
        lemma_first_byte_is(input, LF, 0, 1);
        assert(input.subrange(0, 1) =~= seq![CR]);
        assert(trim_cr(seq![CR]) =~= Seq::<u8>::empty());
        assert(head_lines(input) =~= lines);
    } else {
        let rest = head_of(lines.skip(1)) + body;
        assert(input =~= lines[0] + crlf() + rest);
        lemma_head_step(lines[0], rest);
        assert forall|i: int| 0 <= i < lines.skip(1).len() implies plain_line(
            #[trigger] lines.skip(1)[i],
        ) by {
            assert(lines.skip(1)[i] == lines[i + 1]);
        }
        lemma_head_of_lines(lines.skip(1), body);
        assert(seq![lines[0]] + lines.skip(1) =~= lines);
    }
    assert(after_head(input) =~= body);
}

/// A name without a colon, a colon and a space, and a value make a line that
/// splits into that name and that value.
pub proof fn lemma_split_header(name: Seq<u8>, value: Seq<u8>)
    requires
        forall|i: int| 0 <= i < name.len() ==> #[trigger] name[i] != 58,
    ensures
        split_once(name + ascii(": "@) + value, ascii(": "@)) == Some((name, value)),
{
    reveal_strlit(": ");
    let sep = ascii(": "@);
    let line = name + sep + value;
    let k = name.len() as int;
    assert(sep[0] == 58);
    assert(line.subrange(k, k + 2) =~= sep);
    assert forall|j: int| 0 <= j < k implies !matches_at(line, sep, j) by {
        if matches_at(line, sep, j) {
            assert(line.subrange(j, j + 2)[0] == sep[0]);
            assert(line[j] == name[j]);
        }
    }
    lemma_first_match_is(line, sep, 0, k);
    assert(line.subrange(0, k) =~= name);
    assert(line.subrange(k + 2, line.len() as int) =~= value);
}

/// The lines of the head of a response.
pub open spec fn response_lines(r: ResponseView) -> Seq<Seq<u8>> {
    match r.content_encoding {
        CompressionType::none => seq![status_line(r), type_line(r), length_line(r)],
        CompressionType::gzip => seq![
            status_line(r),
            type_line(r),
            ascii("Content-Encoding: gzip"@),
            length_line(r),
        ],
    }
}

/// The bytes of a response are its lines, made into a head, and its body.
pub proof fn lemma_wire_is_message(r: ResponseView)
    ensures
        wire(r) == head_of(response_lines(r)) + r.contents,
{
    let lines = response_lines(r);
    reveal_with_fuel(head_of, 6);
    match r.content_encoding {
        CompressionType::none => {
            assert(lines.skip(1) =~= seq![type_line(r), length_line(r)]);
            assert(lines.skip(1).skip(1) =~= seq![length_line(r)]);
            assert(lines.skip(1).skip(1).skip(1) =~= Seq::<Seq<u8>>::empty());
        },
        CompressionType::gzip => {
            let enc = ascii("Content-Encoding: gzip"@);
            assert(lines.skip(1) =~= seq![type_line(r), enc, length_line(r)]);
            assert(lines.skip(1).skip(1) =~= seq![enc, length_line(r)]);
            assert(lines.skip(1).skip(1).skip(1) =~= seq![length_line(r)]);
            assert(lines.skip(1).skip(1).skip(1).skip(1) =~= Seq::<Seq<u8>>::empty());
        },
    }
    assert(wire(r) =~= head_of(lines) + r.contents);
}

/// Text without line ends, put behind text that is not empty and has no line
/// feed, makes a plain line.
pub proof fn lemma_plain_line(front: Seq<u8>, back: Seq<u8>)
    requires
        front.len() > 0,
        front.last() != CR,
        forall|i: int| 0 <= i < front.len() ==> #[trigger] front[i] != LF,
        header_safe(back),
    ensures
        plain_line(front + back),
{
    let line = front + back;
    assert forall|i: int| 0 <= i < line.len() implies #[trigger] line[i] != LF by {
        if i < front.len() {
            assert(line[i] == front[i]);
        } else {
            assert(line[i] == back[i - front.len()]);
        }
    }
    if back.len() > 0 {
        assert(line.last() == back[back.len() - 1]);
    } else {
        assert(line =~= front);
    }
}

/// A string of decimal digits holds no line end.
pub proof fn lemma_digits_header_safe(n: nat)
    ensures
        header_safe(decimal(n)),
{
    lemma_decimal_digits(n);
    assert forall|i: int| 0 <= i < decimal(n).len() implies #[trigger] decimal(n)[i] != CR
        && decimal(n)[i] != LF by {
        assert(is_digit(decimal(n)[i]));
    }
}

/// The lines of a well-formed response are plain.
pub proof fn lemma_response_lines_plain(r: ResponseView)
    requires
        r.well_formed(),
    ensures
        forall|i: int| 0 <= i < response_lines(r).len() ==> plain_line(
            #[trigger] response_lines(r)[i],
        ),
{
    reveal_strlit("HTTP/1.1 ");
    reveal_strlit("Content-Type: ");
    reveal_strlit("Content-Encoding: gzip");
    reveal_strlit("Content-Length: ");
    lemma_digits_header_safe(r.status_code.number());
    lemma_digits_header_safe(r.contents.len());
    let start = ascii("HTTP/1.1 "@) + decimal(r.status_code.number()) + seq![SP];
    assert(start.last() == SP);
    assert forall|i: int| 0 <= i < start.len() implies #[trigger] start[i] != LF by {
        if i < 9 {
            assert(start[i] == ascii("HTTP/1.1 "@)[i]);
        } else if i < start.len() - 1 {
            assert(start[i] == decimal(r.status_code.number())[i - 9]);
        }
    }
    lemma_plain_line(start, r.status_message);
    lemma_plain_line(ascii("Content-Type: "@), r.content_type);
    lemma_plain_line(ascii("Content-Length: "@), decimal(r.contents.len()));
    lemma_plain_line(ascii("Content-Encoding: gzip"@), Seq::empty());
    assert(ascii("Content-Encoding: gzip"@) + Seq::<u8>::empty() =~= ascii(
        "Content-Encoding: gzip"@,
    ));
}

/// Reading the `Content-Length` header back from the bytes of a response
/// gives the number of bytes of the body that follows the head, whatever the
/// body holds and however long it is.
pub proof fn lemma_content_length_round_trip(r: ResponseView)
    requires
        r.well_formed(),
    ensures
        after_head(wire(r)) == r.contents,
        content_length_of(header_lines(wire(r))) == r.contents.len(),
        declared_length(wire(r)) == after_head(wire(r)).len(),
{
    let lines = response_lines(r);
    lemma_wire_is_message(r);
    lemma_response_lines_plain(r);
    lemma_head_of_lines(lines, r.contents);
    let headers = header_lines(wire(r));
    assert(headers.last() == length_line(r));
    assert(headers =~= headers.drop_last().push(length_line(r)));
    lemma_content_length_header(headers.drop_last(), r.contents.len());
}

/// When a request is read and when it is refused: it is malformed exactly
/// where its request line has fewer than three tokens; otherwise its body is
/// incomplete exactly where fewer bytes follow the head than the head
/// declares; otherwise it is read, and the body is as long as declared.
pub proof fn lemma_parse_outcomes(input: Seq<u8>)
    ensures
        parse_request(input) == Err::<RequestView, ParseError>(ParseError::MalformedRequestLine)
            <==> request_line_tokens(input).len() < 3,
        parse_request(input) == Err::<RequestView, ParseError>(ParseError::IncompleteBody) <==> (
        request_line_tokens(input).len() >= 3 && after_head(input).len() < declared_length(input)),
        parse_request(input) is Ok <==> (request_line_tokens(input).len() >= 3 && after_head(
            input,
        ).len() >= declared_length(input)),
        parse_request(input) is Ok ==> parse_request(input)->Ok_0.well_formed()
            && parse_request(input)->Ok_0.contents.len() == declared_length(input),
{
    lemma_head_end_bounds(input, 0);
}

/// A message whose head declares a body of `L` bytes is read exactly where
/// at least `L` bytes follow the head. The body read is then the first `L`
/// of them: all of them where exactly `L` follow. Where fewer follow, the
/// body is incomplete.
pub proof fn lemma_body_length(lines: Seq<Seq<u8>>, body: Seq<u8>)
    requires
        lines.len() > 0,
        forall|i: int| 0 <= i < lines.len() ==> plain_line(#[trigger] lines[i]),
        segments(lines[0], SP).len() >= 3,
    ensures
        body.len() < content_length_of(lines.skip(1)) ==> parse_request(head_of(lines) + body)
            == Err::<RequestView, ParseError>(ParseError::IncompleteBody),
        body.len() >= content_length_of(lines.skip(1)) ==> parse_request(head_of(lines) + body)
            is Ok && parse_request(head_of(lines) + body)->Ok_0.content_length
            == content_length_of(lines.skip(1)) && parse_request(
            head_of(lines) + body,
        )->Ok_0.contents == body.take(content_length_of(lines.skip(1)) as int),
        body.len() == content_length_of(lines.skip(1)) ==> parse_request(
            head_of(lines) + body,
        )->Ok_0.contents == body,
{
    lemma_head_of_lines(lines, body);
    if body.len() == content_length_of(lines.skip(1)) {
        assert(body.take(body.len() as int) =~= body);
    }
}

/// A `Content-Length` header that writes `n` in decimal digits, as the last
/// of the headers, declares `n`, however large `n` is.
pub proof fn lemma_content_length_header(headers: Seq<Seq<u8>>, n: nat)
    ensures
        content_length_of(headers.push(ascii("Content-Length: "@) + decimal(n))) == n,
{
    reveal_strlit("Content-Length");
    reveal_strlit("Content-Length: ");
    reveal_strlit(": ");
    let name = ascii("Content-Length"@);
    let line = ascii("Content-Length: "@) + decimal(n);
    assert(line =~= name + ascii(": "@) + decimal(n));
    lemma_split_header(name, decimal(n));
    assert(headers.push(line).last() == line);
    assert(is_header(line, name));
    assert(value_of(line) == decimal(n));
    lemma_length_of_decimal(n);
}

/// A token of a request line: not empty, and free of spaces and of line
/// ends.
pub open spec fn is_token(t: Seq<u8>) -> bool {
    &&& t.len() > 0
    &&& forall|i: int| 0 <= i < t.len() ==> #[trigger] t[i] != SP && t[i] != CR && t[i] != LF
}

/// What may stand behind a request line: nothing, or a line end and
/// whatever follows it.
pub open spec fn begins_with_line_end(tail: Seq<u8>) -> bool {
    ||| tail.len() == 0
    ||| tail[0] == LF
    ||| (tail.len() >= 2 && tail[0] == CR && tail[1] == LF)
}

/// Three tokens with single spaces between them are the three segments of
/// the line that they make.
pub proof fn lemma_three_tokens(a: Seq<u8>, b: Seq<u8>, c: Seq<u8>)
    requires
        is_token(a),
        is_token(b),
        is_token(c),
    ensures
        segments(a + seq![SP] + b + seq![SP] + c, SP) == seq![a, b, c],
{
    let parts = seq![a, b, c];
    let line = a + seq![SP] + b + seq![SP] + c;
    reveal_with_fuel(join, 4);
    assert(parts.skip(1) =~= seq![b, c]);
    assert(parts.skip(1).skip(1) =~= seq![c]);
    assert(join(parts, seq![SP]) =~= line);
    lemma_segments_of_join(parts, SP);
}

/// A request line of exactly three tokens is read as they stand: the method
/// is the one that the first token names, path and protocol version are the
/// second and the third, byte for byte, whatever follows the line. What
/// follows can still leave the body incomplete, and nothing else.
pub proof fn lemma_request_line_verbatim(
    method: Seq<u8>,
    path: Seq<u8>,
    version: Seq<u8>,
    tail: Seq<u8>,
)
    requires
        is_token(method),
        is_token(path),
        is_token(version),
        begins_with_line_end(tail),
    ensures
        request_line_tokens(method + seq![SP] + path + seq![SP] + version + tail) == seq![
            method,
            path,
            version,
        ],
        match parse_request(method + seq![SP] + path + seq![SP] + version + tail) {
            Ok(request) => request.request_type == method_of(method) && request.path == path
                && request.protocol == version,
            Err(e) => e == ParseError::IncompleteBody,
        },
{
    let line = method + seq![SP] + path + seq![SP] + version;
    let input = line + tail;
    let n = line.len() as int;
    lemma_three_tokens(method, path, version);
    assert(line.last() == version[version.len() - 1]);
    assert forall|i: int| 0 <= i < n implies line[i] != LF by {
        let a = method.len() as int;
        let b = a + 1 + path.len();
        if i < a {
            assert(line[i] == method[i]);
        } else if i == a {
        } else if i < b {
            assert(line[i] == path[i - a - 1]);
        } else if i == b {
        } else {
            assert(line[i] == version[i - b - 1]);
        }
    }
    assert forall|i: int| 0 <= i < n implies input[i] != LF by {
        assert(input[i] == line[i]);
    }
    if tail.len() == 0 {
        assert(input =~= line);
        lemma_first_byte_is(input, LF, 0, n);
        assert(input.subrange(0, n) =~= line);
        assert(head_lines(input)[0] == line);
    } else if tail[0] == LF {
        assert(input[n] == LF);
        lemma_first_byte_is(input, LF, 0, n);
        assert(input.subrange(0, n) =~= line);
        assert(trim_cr(line) == line);
        assert(head_lines(input)[0] == line);
    } else {
        assert(input[n] == CR);
        assert(input[n + 1] == LF);
        lemma_first_byte_is(input, LF, 0, n + 1);
        assert(input.subrange(0, n + 1) =~= line.push(CR));
        assert(line.push(CR).drop_last() =~= line);
        assert(trim_cr(input.subrange(0, n + 1)) == line);
        assert(head_lines(input)[0] == line);
    }
}

/// Path and protocol version of a request that was read are tokens of the
/// request line: neither is empty, and neither holds a space.
pub proof fn lemma_parsed_tokens_clean(input: Seq<u8>)
    requires
        parse_request(input) is Ok,
    ensures
        parse_request(input)->Ok_0.path.len() > 0,
        free_of(parse_request(input)->Ok_0.path, SP),
        parse_request(input)->Ok_0.protocol.len() > 0,
        free_of(parse_request(input)->Ok_0.protocol, SP),
{
    lemma_segments_clean(head_lines(input)[0], SP);
}

} // verus!
