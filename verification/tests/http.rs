use djimic::http::{content_length, find_subsequence, http_response, ReadStep, RequestReader, MAX_HEADER_BYTES};

fn done(step: ReadStep) -> Vec<u8> {
    match step {
        ReadStep::Done(b) => b,
        ReadStep::NeedMore => panic!("needs more"),
        ReadStep::Failed => panic!("failed"),
    }
}

#[test]
fn subsequences_are_found_at_their_first_occurrence() {
    assert_eq!(find_subsequence(b"abcabc", b"bc"), Some(1));
    assert_eq!(find_subsequence(b"abc", b"abcd"), None);
    assert_eq!(find_subsequence(b"aaa", b"x"), None);
    assert_eq!(find_subsequence(b"x\r\n\r\ny", b"\r\n\r\n"), Some(1));
}

#[test]
fn the_content_length_header_is_read_case_insensitively() {
    assert_eq!(content_length(b"POST / HTTP/1.1\r\nContent-Length: 42\r\n\r\n"), 42);
    assert_eq!(content_length(b"POST / HTTP/1.1\r\ncontent-length:7\r\n"), 7);
    assert_eq!(content_length(b"POST / HTTP/1.1\r\nCONTENT-LENGTH:   12  \r\n"), 12);
    assert_eq!(content_length(b"POST / HTTP/1.1\r\nHost: x\r\n\r\n"), 0);
    assert_eq!(content_length(b"POST / HTTP/1.1\r\nContent-Length: abc\r\nContent-Length: 9\r\n"), 0);
}

#[test]
fn a_request_in_one_piece() {
    let mut r = RequestReader::new();
    let body = done(r.on_data(b"POST /permission HTTP/1.1\r\nContent-Length: 5\r\n\r\nhello"));
    assert_eq!(body, b"hello");
}

#[test]
fn a_request_in_many_pieces() {
    let mut r = RequestReader::new();
    assert!(matches!(r.on_data(b"POST / HTTP/1.1\r\nContent-Le"), ReadStep::NeedMore));
    assert!(matches!(r.on_data(b"ngth: 6\r\n\r"), ReadStep::NeedMore));
    assert!(matches!(r.on_data(b"\nabc"), ReadStep::NeedMore));
    let body = done(r.on_data(b"defXYZ"));
    assert_eq!(body, b"abcdef");
}

#[test]
fn the_end_of_the_connection_gives_what_arrived() {
    let mut r = RequestReader::new();
    assert!(matches!(r.on_end(), ReadStep::Failed));
    assert!(matches!(r.on_data(b"POST / HTTP/1.1\r\nContent-Length: 10\r\n\r\nabc"), ReadStep::NeedMore));
    assert_eq!(done(r.on_end()), b"abc");
}

#[test]
fn no_content_length_means_an_empty_body() {
    let mut r = RequestReader::new();
    assert_eq!(done(r.on_data(b"GET / HTTP/1.1\r\n\r\nignored")), b"");
}

#[test]
fn endless_headers_are_abandoned() {
    let mut r = RequestReader::new();
    let chunk = vec![b'a'; MAX_HEADER_BYTES];
    assert!(matches!(r.on_data(&chunk), ReadStep::NeedMore));
    assert!(matches!(r.on_data(b"a"), ReadStep::Failed));
}

#[test]
fn the_reply_announces_its_byte_length() {
    assert_eq!(
        http_response(r#"{"a":"é"}"#),
        "HTTP/1.1 200 OK\r\nContent-Type: application/json\r\nContent-Length: 10\r\nConnection: close\r\n\r\n{\"a\":\"é\"}"
    );
}
