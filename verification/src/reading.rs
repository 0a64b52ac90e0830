//! Reading a stream piece by piece comes to the same as parsing it whole.
//!
//! A connection asks for its message line by line, and for the body in one
//! piece. Here a reader is described that serves it from a stream of bytes,
//! and it is shown that the connection then stands where the parser puts the
//! whole stream.

use crate::request::{
    after_head, declared_length, head_end_from, head_len, head_lines, head_lines_from,
    header_lines, is_closing_line, lemma_head_end_bounds, parse_request, request_line_tokens,
    trim_cr,
};
use crate::routes::RouteView;
use crate::text::{first_match, lemma_first_match, lemma_first_match_is, matches_at, CR, LF};
use crate::worker::{after_line, after_reading, next, CommandView, ConnectionView, EventView};
use vstd::prelude::*;

verus! {

/// The index behind the line that begins at `from`, its line feed included;
/// the length of the stream where no line feed follows.
pub open spec fn line_end(stream: Seq<u8>, from: int) -> int {
    if first_match(stream, seq![LF], from) < stream.len() {
        first_match(stream, seq![LF], from) + 1
    } else {
        stream.len() as int
    }
}

/// The bytes that a reader hands over when `count` bytes are asked for at
/// `from`: that many, or what is left of the stream.
pub open spec fn body_read(stream: Seq<u8>, from: int, count: nat) -> Seq<u8> {
    if from + count <= stream.len() {
        stream.subrange(from, from + count)
    } else {
        stream.subrange(from, stream.len() as int)
    }
}

/// Where a connection stands that has received the stream up to `from` and
/// is served the rest: each line as it is asked for, then the body.
pub open spec fn read_from(routes: Seq<RouteView>, stream: Seq<u8>, from: int) -> (
    ConnectionView,
    CommandView,
)
    decreases stream.len() - from,
{
    let end = line_end(stream, from);
    let step = next(
        routes,
        ConnectionView::Reading { received: stream.take(from), head_closed: false },
        EventView::Line(stream.subrange(from, end)),
    );
    if 0 <= from < end <= stream.len() && step.1 is ReadLine {
        read_from(routes, stream, end)
    } else if step.1 is ReadBody {
        next(routes, step.0, EventView::Body(body_read(stream, end, step.1->ReadBody_0)))
    } else {
        step
    }
}

/// The first match in a stream is the first match in each of its
/// beginnings that hold it.
pub proof fn lemma_first_match_in_prefix(s: Seq<u8>, pat: Seq<u8>, from: int, m: int)
    requires
        0 <= from <= m <= s.len(),
        pat.len() > 0,
        first_match(s, pat, from) + pat.len() <= m,
    ensures
        first_match(s.take(m), pat, from) == first_match(s, pat, from),
{
    let k = first_match(s, pat, from);
    lemma_first_match(s, pat, from);
    assert(s.take(m).subrange(k, k + pat.len()) =~= s.subrange(k, k + pat.len()));
    assert forall|j: int| from <= j < k implies !matches_at(s.take(m), pat, j) by {
        if matches_at(s.take(m), pat, j) {
            assert(s.take(m).subrange(j, j + pat.len()) =~= s.subrange(j, j + pat.len()));
            assert(matches_at(s, pat, j));
        }
    }
    lemma_first_match_is(s.take(m), pat, from, k);
}

/// A beginning of a stream that holds its whole head has the same lines,
/// and its head ends at the same place.
pub proof fn lemma_head_of_prefix(stream: Seq<u8>, from: int, m: int)
    requires
        0 <= from <= m <= stream.len(),
        head_end_from(stream, from) <= m,
    ensures
        head_lines_from(stream.take(m), from) == head_lines_from(stream, from),
        head_end_from(stream.take(m), from) == head_end_from(stream, from),
    decreases stream.len() - from,
{
    let lf = seq![LF];
    let k = first_match(stream, lf, from);
    lemma_first_match(stream, lf, from);
    if from >= stream.len() {
    } else if k >= stream.len() {
        assert(stream.take(m) =~= stream);
    } else {
        lemma_head_end_bounds(stream, k + 1);
        lemma_first_match_in_prefix(stream, lf, from, m);
        assert(stream.take(m).subrange(from, k) =~= stream.subrange(from, k));
        if trim_cr(stream.subrange(from, k)).len() != 0 {
            lemma_head_of_prefix(stream, k + 1, m);
        }
    }
}

/// A beginning of a stream that holds the head and as much of the body as
/// the head declares parses as the whole stream. So does any beginning that
/// holds the head, where the stream itself is too short for the body.
pub proof fn lemma_parse_prefix(stream: Seq<u8>, m: int)
    requires
        head_len(stream) <= m <= stream.len(),
        m >= head_len(stream) + declared_length(stream) || stream.len() < head_len(stream)
            + declared_length(stream),
    ensures
        parse_request(stream.take(m)) == parse_request(stream),
{
    lemma_head_end_bounds(stream, 0);
    lemma_head_of_prefix(stream, 0, m);
    let e = head_len(stream);
    let n = declared_length(stream);
    assert(head_lines(stream.take(m)) == head_lines(stream));
    assert(header_lines(stream.take(m)) == header_lines(stream));
    assert(request_line_tokens(stream.take(m)) == request_line_tokens(stream));
    assert(after_head(stream.take(m)) =~= stream.subrange(e, m));
    if m >= e + n {
        assert(after_head(stream.take(m)).take(n as int) =~= after_head(stream).take(n as int));
    }
}

/// A line taken with its line feed closes the head exactly where the line
/// without it is empty but for a carriage return.
pub proof fn lemma_closing_line(stream: Seq<u8>, from: int, k: int)
    requires
        0 <= from <= k < stream.len(),
        stream[k] == LF,
    ensures
        is_closing_line(stream.subrange(from, k + 1)) <==> trim_cr(stream.subrange(from, k)).len()
            == 0,
{
    let line = stream.subrange(from, k + 1);
    let content = stream.subrange(from, k);
    if content.len() == 0 {
        assert(line =~= seq![LF]);
    } else if content.len() == 1 && content[0] == CR {
        assert(line =~= seq![CR, LF]);
    } else if is_closing_line(line) {
        assert(line.len() <= 2);
        assert(line[0] == CR);
        assert(content[0] == line[0]);
    } else if content.last() == CR {
        assert(content.drop_last().len() == content.len() - 1);
    }
}

/// A connection that is served the rest of a stream from the beginning of
/// one of the lines of its head comes to stand where the parser puts the
/// whole stream.
pub proof fn lemma_reading_from(routes: Seq<RouteView>, stream: Seq<u8>, from: int)
    requires
        0 <= from <= stream.len() <= usize::MAX,
        head_end_from(stream, from) == head_len(stream),
    ensures
        read_from(routes, stream, from) == after_reading(stream),
    decreases stream.len() - from,
{
    let lf = seq![LF];
    let k = first_match(stream, lf, from);
    lemma_first_match(stream, lf, from);
    let end = line_end(stream, from);
    let line = stream.subrange(from, end);
    let all = stream.take(from) + line;
    assert(all =~= stream.take(end));
    let state = ConnectionView::Reading { received: stream.take(from), head_closed: false };
    let step = next(routes, state, EventView::Line(line));
    assert(step == after_line(stream.take(from), line));
    if k < stream.len() {
        assert(stream.subrange(k, k + 1) == lf);
        assert(stream[k] == stream.subrange(k, k + 1)[0]);
        lemma_closing_line(stream, from, k);
    }
    if line.len() > 0 && !is_closing_line(line) {
        if k < stream.len() {
            lemma_reading_from(routes, stream, end);
        } else {
            assert(head_end_from(stream, end) == stream.len());
            lemma_reading_from(routes, stream, end);
        }
    } else {
        assert(end == head_len(stream));
        lemma_head_end_bounds(stream, 0);
        lemma_head_of_prefix(stream, 0, end);
        let n = declared_length(stream);
        assert(declared_length(all) == n);
        if 0 < n <= usize::MAX {
            let body = body_read(stream, end, n);
            let m = if end + n <= stream.len() {
                end + n
            } else {
                stream.len() as int
            };
            assert(all + body =~= stream.take(m));
            lemma_parse_prefix(stream, m);
        } else {
            lemma_parse_prefix(stream, end);
        }
    }
}

/// A connection that is served a stream from its beginning, line by line
/// and then the body, comes to stand where the parser puts the whole
/// stream: with the request that the stream parses to, or failed as the
/// parse fails. The stream is one that a vector can hold.
pub proof fn lemma_reading_is_parsing(routes: Seq<RouteView>, stream: Seq<u8>)
    requires
        stream.len() <= usize::MAX,
    ensures
        read_from(routes, stream, 0) == after_reading(stream),
{
    lemma_reading_from(routes, stream, 0);
}

} // verus!
