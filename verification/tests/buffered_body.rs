use bytes::BytesMut;
use hyper::header::{HeaderName, HeaderValue};
use hyper::HeaderMap;
use risu::buffered_body::MAX_MERGED_NAMES;
use risu::{BodyFrame, BufferedBody, CachedResponse};

fn headers(pairs: &[(&'static str, &'static str)]) -> HeaderMap {
    let mut map = HeaderMap::new();
    for (name, value) in pairs {
        map.append(HeaderName::from_static(name), HeaderValue::from_static(value));
    }
    map
}

fn values(map: &HeaderMap, name: &str) -> Vec<String> {
    map.get_all(name).iter().map(|v| v.to_str().unwrap().to_string()).collect()
}

fn data(bytes: &[u8]) -> BodyFrame {
    BodyFrame::Data(BytesMut::from(bytes))
}

#[test]
fn an_empty_body_is_valid_and_gives_no_frame() {
    let mut body = BufferedBody::default();
    assert_eq!(body.len(), 0);
    assert!(body.trailers().is_none());
    assert!(body.next_frame().is_none());
    assert!(BufferedBody::from_bytes(b"").next_frame().is_none());
}

#[test]
fn from_bytes_holds_the_bytes() {
    let body = BufferedBody::from_bytes(b"Healthy");
    assert_eq!(body.hashed_bytes(), b"Healthy");
    assert_eq!(body.len(), 7);
    assert!(body.trailers().is_none());
}

#[test]
fn data_frames_are_appended_in_order() {
    let mut body = BufferedBody::default();
    body.push_frame(data(b"hel"));
    body.push_frame(data(b""));
    body.push_data(b"lo ");
    body.push_frame(data(b"world"));
    assert_eq!(body.hashed_bytes(), b"hello world");
    assert_eq!(body.len(), 11);
}

#[test]
fn trailer_frames_are_merged_into_one_set() {
    let mut body = BufferedBody::default();
    body.push_frame(BodyFrame::Trailers(headers(&[("grpc-status", "0"), ("a", "1"), ("a", "2")])));
    body.push_frame(BodyFrame::Trailers(headers(&[("grpc-message", "ok"), ("a", "3")])));
    let trailers = body.trailers().unwrap();
    assert_eq!(trailers.keys_len(), 3);
    assert_eq!(values(trailers, "grpc-status"), vec!["0"]);
    assert_eq!(values(trailers, "grpc-message"), vec!["ok"]);
    // A name of the later frame has the later frame's values only.
    assert_eq!(values(trailers, "a"), vec!["3"]);
}

#[test]
fn a_body_with_only_trailers_is_valid() {
    let mut body = BufferedBody::default();
    body.push_frame(BodyFrame::Trailers(headers(&[("grpc-status", "0")])));
    assert_eq!(body.len(), 0);
    match body.next_frame() {
        Some(BodyFrame::Trailers(trailers)) => assert_eq!(values(&trailers, "grpc-status"), vec!["0"]),
        _ => panic!("expected the trailers"),
    }
    assert!(body.next_frame().is_none());
}

#[test]
fn a_body_gives_its_data_whole_then_its_trailers_then_nothing() {
    let mut body = BufferedBody::default();
    body.push_data(b"abc");
    body.push_frame(BodyFrame::Trailers(headers(&[("grpc-status", "0")])));
    body.push_data(b"def");
    match body.next_frame() {
        Some(BodyFrame::Data(bytes)) => assert_eq!(&bytes[..], b"abcdef"),
        _ => panic!("expected the data"),
    }
    assert_eq!(body.len(), 0);
    match body.next_frame() {
        Some(BodyFrame::Trailers(trailers)) => assert_eq!(trailers.keys_len(), 1),
        _ => panic!("expected the trailers"),
    }
    assert!(body.trailers().is_none());
    assert!(body.next_frame().is_none());
    assert!(body.next_frame().is_none());
}

#[test]
fn collecting_what_a_body_gave_builds_the_same_body() {
    let mut body = BufferedBody::from_bytes(b"payload");
    body.push_frame(BodyFrame::Trailers(headers(&[("grpc-status", "7")])));
    let mut source = body.clone();
    let mut collected = BufferedBody::default();
    while let Some(frame) = source.next_frame() {
        collected.push_frame(frame);
    }
    assert_eq!(collected.hashed_bytes(), body.hashed_bytes());
    assert_eq!(collected.trailers(), body.trailers());
}

#[test]
fn a_clone_shares_nothing_with_its_source() {
    let mut body = BufferedBody::from_bytes(b"one");
    body.push_frame(BodyFrame::Trailers(headers(&[("grpc-status", "0")])));
    let copy = body.clone();
    body.push_data(b" two");
    body.push_frame(BodyFrame::Trailers(headers(&[("grpc-status", "1")])));
    assert_eq!(copy.hashed_bytes(), b"one");
    assert_eq!(values(copy.trailers().unwrap(), "grpc-status"), vec!["0"]);
    assert_eq!(body.hashed_bytes(), b"one two");
    let mut drained = copy.clone();
    drained.next_frame();
    drained.next_frame();
    assert_eq!(copy.len(), 3);
    assert!(copy.trailers().is_some());
}

#[test]
fn trailers_have_no_part_in_what_is_hashed() {
    let mut ok = BufferedBody::from_bytes(b"same bytes");
    ok.push_frame(BodyFrame::Trailers(headers(&[("grpc-status", "0")])));
    let mut failed = BufferedBody::from_bytes(b"same bytes");
    failed.push_frame(BodyFrame::Trailers(headers(&[("grpc-status", "13")])));
    let plain = BufferedBody::from_bytes(b"same bytes");
    assert_eq!(ok.hashed_bytes(), failed.hashed_bytes());
    assert_eq!(ok.hashed_bytes(), plain.hashed_bytes());
}

#[test]
fn trailers_past_the_limit_are_handed_back() {
    let mut body = BufferedBody::default();
    let mut many = HeaderMap::new();
    assert_eq!(MAX_MERGED_NAMES, 6553);
    for i in 0..MAX_MERGED_NAMES {
        let name = HeaderName::from_bytes(format!("h{}", i).as_bytes()).unwrap();
        many.insert(name, HeaderValue::from_static("v"));
    }
    // Into a body without trailers any set goes.
    assert!(body.accepts(&BodyFrame::Trailers(many.clone())));
    assert!(body.try_push_frame(BodyFrame::Trailers(many)).is_ok());
    assert_eq!(body.trailers().unwrap().keys_len(), MAX_MERGED_NAMES);
    // One more name would pass the limit.
    let one = headers(&[("one-more", "v")]);
    assert!(!body.accepts(&BodyFrame::Trailers(one.clone())));
    match body.try_push_frame(BodyFrame::Trailers(one)) {
        Err(BodyFrame::Trailers(back)) => assert_eq!(values(&back, "one-more"), vec!["v"]),
        _ => panic!("expected the trailers back"),
    }
    assert_eq!(body.trailers().unwrap().keys_len(), MAX_MERGED_NAMES);
    // Data is always taken, and so is an empty set.
    assert!(body.try_push_frame(BodyFrame::Data(BytesMut::from(&b"x"[..]))).is_ok());
    assert!(body.try_push_frame(BodyFrame::Trailers(HeaderMap::new())).is_ok());
    assert_eq!(body.len(), 1);
}

#[test]
fn a_cloned_response_equals_its_source() {
    let mut body = BufferedBody::from_bytes(b"reply");
    body.push_frame(BodyFrame::Trailers(headers(&[("grpc-status", "0")])));
    let response = CachedResponse::new(
        200,
        headers(&[("content-type", "application/grpc"), ("via", "a"), ("via", "b")]),
        body,
    );
    let mut copies = Vec::new();
    for _ in 0..5 {
        copies.push(response.clone());
    }
    for copy in copies {
        assert_eq!(copy.status(), 200);
        assert_eq!(copy.headers(), response.headers());
        assert_eq!(values(copy.headers(), "via"), vec!["a", "b"]);
        assert_eq!(copy.body().hashed_bytes(), b"reply");
        assert_eq!(copy.body().trailers(), response.body().trailers());
        let (status, head, body) = copy.into_parts();
        assert_eq!(status, 200);
        assert_eq!(head.keys_len(), 2);
        assert_eq!(body.len(), 5);
    }
}

#[test]
fn sets_that_fill_the_limit_together_are_merged() {
    let mut body = BufferedBody::default();
    let mut first = HeaderMap::new();
    for i in 0..4000 {
        let name = HeaderName::from_bytes(format!("a{}", i).as_bytes()).unwrap();
        first.insert(name, HeaderValue::from_static("1"));
    }
    let mut second = HeaderMap::new();
    for i in 0..(MAX_MERGED_NAMES - 4000) {
        let name = HeaderName::from_bytes(format!("b{}", i).as_bytes()).unwrap();
        second.insert(name, HeaderValue::from_static("2"));
    }
    body.push_frame(BodyFrame::Trailers(first));
    assert!(body.accepts(&BodyFrame::Trailers(second.clone())));
    body.push_frame(BodyFrame::Trailers(second));
    let trailers = body.trailers().unwrap();
    assert_eq!(trailers.keys_len(), MAX_MERGED_NAMES);
    assert_eq!(values(trailers, "a0"), vec!["1"]);
    assert_eq!(values(trailers, "b0"), vec!["2"]);
}
