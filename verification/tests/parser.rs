use http_core::message::{CompressionType, ParseError, Request, RequestType};
use http_core::request::{
    closes_head, find_header, headers_accept_gzip, name_method, read_content_length, read_method,
    value_offers_gzip,
};

fn owned(parts: &[&[u8]]) -> Vec<Vec<u8>> {
    parts.iter().map(|p| p.to_vec()).collect()
}

#[test]
fn request_line_is_taken_verbatim() {
    let r = Request::new(b"GET /echo/hello HTTP/1.1\r\nHost: localhost:4221\r\n\r\n").unwrap();
    assert_eq!(r.request_type, RequestType::GET);
    assert_eq!(r.path, b"/echo/hello".to_vec());
    assert_eq!(r.protocol, b"HTTP/1.1".to_vec());
    assert_eq!(r.host, b"localhost:4221".to_vec());
    assert_eq!(r.content_length, 0);
    assert_eq!(r.contents, Vec::<u8>::new());
    assert_eq!(r.compression_type, CompressionType::none);
}

#[test]
fn request_line_is_the_same_whatever_the_headers() {
    let heads: [&[u8]; 5] = [
        b"",
        b"\r\n\r\n",
        b"\nX: y\n\n",
        b"\r\nno colon here\r\n: \r\nHost\r\n\r\n",
        b"\r\n\xff\xfe: \x00\r\n\r\nrest",
    ];
    for tail in heads {
        let mut input = b"PoSt /a%20b?\xc3\xa9=1 HTTP/9.9".to_vec();
        input.extend_from_slice(tail);
        let r = Request::new(&input).unwrap();
        assert_eq!(r.request_type, RequestType::POST);
        assert_eq!(r.path, b"/a%20b?\xc3\xa9=1".to_vec());
        assert_eq!(r.protocol, b"HTTP/9.9".to_vec());
    }
}

#[test]
fn method_is_matched_in_upper_case() {
    assert_eq!(read_method(b"GET"), RequestType::GET);
    assert_eq!(read_method(b"get"), RequestType::GET);
    assert_eq!(read_method(b"Put"), RequestType::PUT);
    assert_eq!(read_method(b"pOsT"), RequestType::POST);
    assert_eq!(read_method(b"delete"), RequestType::DELETE);
    assert_eq!(read_method(b"PATCH"), RequestType::UNKNOWN);
    assert_eq!(read_method(b"GETS"), RequestType::UNKNOWN);
    assert_eq!(read_method(b""), RequestType::UNKNOWN);
}

#[test]
fn method_is_folded_as_text_is() {
    assert_eq!(read_method("po\u{17f}t".as_bytes()), RequestType::POST);
    assert_eq!(read_method("PO\u{17f}T".as_bytes()), RequestType::POST);
    assert_eq!(read_method("g\u{20ac}t".as_bytes()), RequestType::UNKNOWN);
    let r = Request::new("po\u{17f}t /files/a HTTP/1.1\r\n\r\n".as_bytes()).unwrap();
    assert_eq!(r.request_type, RequestType::POST);
    assert_eq!(r.path, b"/files/a".to_vec());
}

#[test]
fn method_that_is_no_text_is_unknown() {
    assert_eq!(read_method(&[0xff]), RequestType::UNKNOWN);
    assert_eq!(read_method(&[b'g', b'e', b't', 0x80]), RequestType::UNKNOWN);
    assert_eq!(name_method("GET"), RequestType::GET);
    assert_eq!(name_method("get"), RequestType::UNKNOWN);
    assert_eq!(name_method("DELETE"), RequestType::DELETE);
    assert_eq!(name_method(""), RequestType::UNKNOWN);
    let r = Request::new(b"G\xffT / HTTP/1.1\r\n\r\n").unwrap();
    assert_eq!(r.request_type, RequestType::UNKNOWN);
    assert_eq!(r.path, b"/".to_vec());
}

#[test]
fn content_length_beyond_an_i32_is_read() {
    let r = Request::new(b"POST /x HTTP/1.1\r\nContent-Length: 3000000000\r\n\r\nabc");
    assert_eq!(r, Err(ParseError::IncompleteBody));
    let r = Request::new(b"POST /x HTTP/1.1\r\nContent-Length: 99999999999999999999999\r\n\r\nabc");
    assert_eq!(r, Err(ParseError::IncompleteBody));
    let r = Request::new(b"POST /x\r\nContent-Length: 99999999999999999999999\r\n\r\nabc");
    assert_eq!(r, Err(ParseError::MalformedRequestLine));
}

#[test]
fn unknown_method_is_no_error() {
    let r = Request::new(b"BREW /pot HTCPCP/1.0\r\n\r\n").unwrap();
    assert_eq!(r.request_type, RequestType::UNKNOWN);
    assert_eq!(r.path, b"/pot".to_vec());
}

#[test]
fn fewer_than_three_tokens_is_malformed() {
    assert_eq!(Request::new(b""), Err(ParseError::MalformedRequestLine));
    assert_eq!(Request::new(b"\r\n"), Err(ParseError::MalformedRequestLine));
    assert_eq!(Request::new(b"\r\nGET / HTTP/1.1\r\n\r\n"), Err(ParseError::MalformedRequestLine));
    assert_eq!(Request::new(b"GET\r\n\r\n"), Err(ParseError::MalformedRequestLine));
    assert_eq!(Request::new(b"GET /\r\n\r\n"), Err(ParseError::MalformedRequestLine));
    assert_eq!(Request::new(b"GET  /  \r\n\r\n"), Err(ParseError::MalformedRequestLine));
    assert_eq!(Request::new(b"GET /\r\nHTTP/1.1\r\n\r\n"), Err(ParseError::MalformedRequestLine));
}

#[test]
fn more_than_three_tokens_uses_the_first_three() {
    let r = Request::new(b"GET  /a   HTTP/1.1 extra\r\n\r\n").unwrap();
    assert_eq!(r.request_type, RequestType::GET);
    assert_eq!(r.path, b"/a".to_vec());
    assert_eq!(r.protocol, b"HTTP/1.1".to_vec());
}

#[test]
fn recognised_headers_are_stored() {
    let r = Request::new(
        b"GET / HTTP/1.1\r\nContent-Type: text/html\r\nUser-Agent: curl/8.0\r\nAccept: */*\r\nHost: example.org\r\nX-Other: 1\r\nContent-Length: 0\r\n\r\n",
    )
    .unwrap();
    assert_eq!(r.content_type, b"text/html".to_vec());
    assert_eq!(r.user_agent, b"curl/8.0".to_vec());
    assert_eq!(r.accept, b"*/*".to_vec());
    assert_eq!(r.host, b"example.org".to_vec());
    assert_eq!(r.content_length, 0);
}

#[test]
fn header_names_are_matched_exactly() {
    let r = Request::new(b"GET / HTTP/1.1\r\nhost: a\r\nHost:b\r\n Host: c\r\nHost : d\r\n\r\n").unwrap();
    assert_eq!(r.host, Vec::<u8>::new());
}

#[test]
fn header_value_is_what_follows_the_first_separator() {
    let r = Request::new(b"GET / HTTP/1.1\r\nHost: a: b: c\r\nUser-Agent:  two spaces \r\n\r\n").unwrap();
    assert_eq!(r.host, b"a: b: c".to_vec());
    assert_eq!(r.user_agent, b" two spaces ".to_vec());
}

#[test]
fn last_header_of_a_name_wins() {
    let r = Request::new(b"GET / HTTP/1.1\r\nHost: first\r\nHost: second\r\n\r\n").unwrap();
    assert_eq!(r.host, b"second".to_vec());
    let lines = owned(&[b"Host: first", b"junk", b"Host: second", b"Hostess: third"]);
    assert_eq!(find_header(&lines, b"Host"), b"second".to_vec());
    assert_eq!(find_header(&lines, b"Hostess"), b"third".to_vec());
    assert_eq!(find_header(&lines, b"Accept"), Vec::<u8>::new());
}

#[test]
fn request_line_is_no_header() {
    let r = Request::new(b"Host: a b\r\n\r\n").unwrap();
    assert_eq!(r.request_type, RequestType::UNKNOWN);
    assert_eq!(r.path, b"a".to_vec());
    assert_eq!(r.protocol, b"b".to_vec());
    assert_eq!(r.host, Vec::<u8>::new());
}

#[test]
fn lines_may_end_in_a_line_feed_alone() {
    let r = Request::new(b"GET /x HTTP/1.1\nUser-Agent: a\nContent-Length: 2\n\nhi").unwrap();
    assert_eq!(r.path, b"/x".to_vec());
    assert_eq!(r.protocol, b"HTTP/1.1".to_vec());
    assert_eq!(r.user_agent, b"a".to_vec());
    assert_eq!(r.contents, b"hi".to_vec());
}

#[test]
fn only_one_carriage_return_belongs_to_the_line_end() {
    let r = Request::new(b"GET /x HTTP/1.1\r\r\nHost: h\r\r\n\r\n").unwrap();
    assert_eq!(r.protocol, b"HTTP/1.1\r".to_vec());
    assert_eq!(r.host, b"h\r".to_vec());
}

#[test]
fn head_may_end_with_the_input() {
    let r = Request::new(b"GET /x HTTP/1.1\r\nHost: h").unwrap();
    assert_eq!(r.host, b"h".to_vec());
    let r = Request::new(b"GET /x HTTP/1.1\r\nHost: h\r").unwrap();
    assert_eq!(r.host, b"h\r".to_vec());
    let r = Request::new(b"GET /x HTTP/1.1").unwrap();
    assert_eq!(r.protocol, b"HTTP/1.1".to_vec());
}

#[test]
fn split_request_stops_at_the_empty_line() {
    let (lines, end) = Request::split_request(b"a\r\nb\n\r\nc\r\n");
    assert_eq!(lines, owned(&[b"a", b"b"]));
    assert_eq!(end, 7);
    let (lines, end) = Request::split_request(b"a\r\nb");
    assert_eq!(lines, owned(&[b"a", b"b"]));
    assert_eq!(end, 4);
    let (lines, end) = Request::split_request(b"\n rest");
    assert_eq!(lines, Vec::<Vec<u8>>::new());
    assert_eq!(end, 1);
    let (lines, end) = Request::split_request(b"");
    assert_eq!(lines, Vec::<Vec<u8>>::new());
    assert_eq!(end, 0);
    let (lines, end) = Request::split_request(b"a\n");
    assert_eq!(lines, owned(&[b"a"]));
    assert_eq!(end, 2);
}

#[test]
fn body_has_exactly_the_declared_length() {
    let r = Request::new(b"POST /files/x HTTP/1.1\r\nContent-Length: 5\r\n\r\nhello").unwrap();
    assert_eq!(r.content_length, 5);
    assert_eq!(r.contents, b"hello".to_vec());
}

#[test]
fn body_may_hold_any_byte() {
    let mut input = b"POST /files/x HTTP/1.1\r\nContent-Length: 6\r\n\r\n".to_vec();
    input.extend_from_slice(&[0x00, 0xff, b'\r', b'\n', b'\n', 0x80]);
    let r = Request::new(&input).unwrap();
    assert_eq!(r.contents, vec![0x00, 0xff, b'\r', b'\n', b'\n', 0x80]);
}

#[test]
fn bytes_behind_the_body_are_left_alone() {
    let r = Request::new(b"POST /files/x HTTP/1.1\r\nContent-Length: 3\r\n\r\nabcdef").unwrap();
    assert_eq!(r.contents, b"abc".to_vec());
}

#[test]
fn short_body_is_incomplete() {
    assert_eq!(
        Request::new(b"POST /files/x HTTP/1.1\r\nContent-Length: 5\r\n\r\nhell"),
        Err(ParseError::IncompleteBody)
    );
    assert_eq!(
        Request::new(b"POST /files/x HTTP/1.1\r\nContent-Length: 1\r\n\r\n"),
        Err(ParseError::IncompleteBody)
    );
    assert_eq!(
        Request::new(b"POST /files/x HTTP/1.1\r\nContent-Length: 1"),
        Err(ParseError::IncompleteBody)
    );
    assert_eq!(
        Request::new(b"POST /files/x HTTP/1.1\r\nContent-Length: 2147483647\r\n\r\nabc"),
        Err(ParseError::IncompleteBody)
    );
}

#[test]
fn each_shortfall_of_the_body_is_incomplete() {
    let head = b"PUT /x HTTP/1.1\r\nContent-Length: 8\r\n\r\n";
    let body = b"12345678";
    for have in 0..8 {
        let mut input = head.to_vec();
        input.extend_from_slice(&body[..have]);
        assert_eq!(Request::new(&input), Err(ParseError::IncompleteBody));
        assert_eq!(Request::expected_body(&input), Some(8));
    }
    let mut input = head.to_vec();
    input.extend_from_slice(body);
    assert_eq!(Request::new(&input).unwrap().contents.len(), 8);
}

#[test]
fn malformed_request_line_comes_before_incomplete_body() {
    assert_eq!(
        Request::new(b"POST /x\r\nContent-Length: 5\r\n\r\n"),
        Err(ParseError::MalformedRequestLine)
    );
}

#[test]
fn content_length_that_is_no_number_counts_as_zero() {
    for value in ["abc", "", " 5", "5 ", "5.0", "0x10", "five", "-", "+", "1e3"] {
        let input = format!("GET / HTTP/1.1\r\nContent-Length: {value}\r\n\r\nbody");
        let r = Request::new(input.as_bytes()).unwrap();
        assert_eq!(r.content_length, 0, "{}", value);
        assert_eq!(r.contents, Vec::<u8>::new());
    }
}

#[test]
fn content_length_may_carry_a_sign() {
    let r = Request::new(b"GET / HTTP/1.1\r\nContent-Length: +4\r\n\r\nbody").unwrap();
    assert_eq!(r.content_length, 4);
    assert_eq!(r.contents, b"body".to_vec());
    for value in ["-4", "-0", "-5", "-2147483648", "-99999999999999999999999"] {
        let input = format!("GET / HTTP/1.1\r\nContent-Length: {value}\r\n\r\nbody");
        let r = Request::new(input.as_bytes()).unwrap();
        assert_eq!(r.content_length, 0, "{}", value);
        assert_eq!(r.contents, Vec::<u8>::new());
    }
}

#[test]
fn last_content_length_decides() {
    let r = Request::new(b"GET / HTTP/1.1\r\nContent-Length: 4\r\nContent-Length: 2\r\n\r\nbody").unwrap();
    assert_eq!(r.contents, b"bo".to_vec());
    let r = Request::new(b"GET / HTTP/1.1\r\nContent-Length: 4\r\nContent-Length: x\r\n\r\nbody").unwrap();
    assert_eq!(r.content_length, 0);
    assert_eq!(r.contents, Vec::<u8>::new());
    let lines = owned(&[b"Content-Length: 4", b"Content-Length: 12"]);
    assert_eq!(read_content_length(&lines), Some(12));
}

#[test]
fn expected_body_reads_the_head_only() {
    assert_eq!(Request::expected_body(b"POST /x HTTP/1.1\r\nContent-Length: 12\r\n\r\n"), Some(12));
    assert_eq!(Request::expected_body(b"POST /x HTTP/1.1\r\nContent-Length: 12\r\n\r\nabc"), Some(12));
    let none: [&[u8]; 4] = [
        b"POST /x HTTP/1.1\r\n\r\nContent-Length: 12\r\n\r\n",
        b"POST /x HTTP/1.1\r\nContent-Length: -12\r\n\r\n",
        b"Content-Length: 12\r\n\r\n",
        b"",
    ];
    for input in none {
        assert_eq!(Request::expected_body(input), Some(0));
    }
    assert_eq!(
        Request::expected_body(b"POST /x HTTP/1.1\r\nContent-Length: 3000000000\r\n\r\n"),
        Some(3000000000)
    );
    assert_eq!(
        Request::expected_body(b"POST /x HTTP/1.1\r\nContent-Length: 99999999999999999999999\r\n\r\n"),
        None
    );
}

#[test]
fn gzip_is_accepted_when_it_is_one_of_the_tokens() {
    assert!(value_offers_gzip(b"gzip"));
    assert!(value_offers_gzip(b"deflate, gzip"));
    assert!(value_offers_gzip(b"gzip, br"));
    assert!(value_offers_gzip(b"a, , gzip, "));
    assert!(!value_offers_gzip(b""));
    assert!(!value_offers_gzip(b"GZIP"));
    assert!(!value_offers_gzip(b"gzip,deflate"));
    assert!(!value_offers_gzip(b"deflate,gzip"));
    assert!(!value_offers_gzip(b"gzip;q=1.0"));
    assert!(!value_offers_gzip(b" gzip"));
    assert!(!value_offers_gzip(b"x-gzip, br"));
}

#[test]
fn accept_encoding_sets_the_compression() {
    let r = Request::new(b"GET / HTTP/1.1\r\nAccept-Encoding: br, gzip\r\n\r\n").unwrap();
    assert_eq!(r.compression_type, CompressionType::gzip);
    let r = Request::new(b"GET / HTTP/1.1\r\nAccept-Encoding: br, deflate\r\n\r\n").unwrap();
    assert_eq!(r.compression_type, CompressionType::none);
    let r = Request::new(b"GET / HTTP/1.1\r\naccept-encoding: gzip\r\n\r\n").unwrap();
    assert_eq!(r.compression_type, CompressionType::none);
}

#[test]
fn any_accept_encoding_header_may_offer_gzip() {
    let r = Request::new(b"GET / HTTP/1.1\r\nAccept-Encoding: gzip\r\nAccept-Encoding: br\r\n\r\n").unwrap();
    assert_eq!(r.compression_type, CompressionType::gzip);
    assert!(headers_accept_gzip(&owned(&[b"Accept-Encoding: br", b"Accept-Encoding: gzip"])));
    assert!(!headers_accept_gzip(&owned(&[b"Accept: gzip", b"Accept-Encoding: br"])));
    assert!(!headers_accept_gzip(&Vec::new()));
}

#[test]
fn empty_line_closes_the_head() {
    assert!(closes_head(b"\n"));
    assert!(closes_head(b"\r\n"));
    assert!(!closes_head(b""));
    assert!(!closes_head(b"\r"));
    assert!(!closes_head(b" \n"));
    assert!(!closes_head(b"\r\r\n"));
    assert!(!closes_head(b"a\r\n"));
}
