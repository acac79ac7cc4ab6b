use hps::bridge::{Action, Adapter, BridgeError, Event, Phase};
use hps::config::{HpsConfig, Matcher};
use hps::frame::FrameError;

fn config_with(rules: &[(&str, &str)], buffer_size: usize) -> HpsConfig {
    HpsConfig {
        server_addr: "127.0.0.1".to_string(),
        server_port: 8080,
        paths: rules
            .iter()
            .map(|(p, a)| Matcher::new(true, p.to_string(), a.to_string()))
            .collect(),
        verbose: false,
        buffer_size,
    }
}

fn api_config() -> HpsConfig {
    config_with(&[("/api", "127.0.0.1:9001")], 8192)
}

fn starts_with(bytes: &[u8], prefix: &str) -> bool {
    bytes.starts_with(prefix.as_bytes())
}

#[test]
fn first_action_reads_whole_buffer() {
    let config = api_config();
    let adapter = Adapter::new(&config);
    assert_eq!(adapter.first_action(), Action::ReadClient(8192));
    assert_eq!(adapter.phase(), Phase::AwaitingRequest);
    assert_eq!(adapter.route_count(), 1);
}

#[test]
fn routed_request_is_forwarded_verbatim() {
    let config = api_config();
    let mut adapter = Adapter::new(&config);
    let request = b"GET /api/users HTTP/1.1\r\nHost: x\r\n\r\n".to_vec();
    let a = adapter.run(&config, Event::ClientData(request.clone()));
    assert_eq!(a, Action::Connect(0));
    assert_eq!(config.paths[0].server_addr(), "127.0.0.1:9001");
    let a = adapter.run(&config, Event::Connected);
    assert_eq!(a, Action::SendToBackend(0, request));
    let a = adapter.run(&config, Event::Sent);
    assert_eq!(a, Action::ReadBackend(0, 8192));
}

#[test]
fn unmatched_path_gets_400_and_closes() {
    let config = api_config();
    let mut adapter = Adapter::new(&config);
    let a = adapter.run(&config, Event::ClientData(b"GET /other HTTP/1.1\r\nHost: x\r\n\r\n".to_vec()));
    match a {
        Action::Reject(BridgeError::NoRoute, bytes) => {
            assert!(starts_with(&bytes, "HTTP/1.1 400 Bad Request\r\n"));
        }
        other => panic!("unexpected action {:?}", other),
    }
    assert_eq!(adapter.phase(), Phase::Closed);
    assert_eq!(adapter.run(&config, Event::ClientData(b"x".to_vec())), Action::Finish);
}

#[test]
fn oversized_head_gets_431() {
    let config = api_config();
    let mut adapter = Adapter::new(&config);
    let mut head = b"GET /api/users HTTP/1.1\r\n".to_vec();
    head.extend_from_slice(b"X-Filler: ");
    head.resize(9000, b'a');
    // The bridge asks for at most the buffer's size.
    let a = adapter.first_action();
    let max = match a {
        Action::ReadClient(n) => n,
        other => panic!("unexpected action {:?}", other),
    };
    let a = adapter.run(&config, Event::ClientData(head[..max].to_vec()));
    match a {
        Action::Reject(BridgeError::RequestTooLarge, bytes) => {
            assert!(starts_with(&bytes, "HTTP/1.1 431 Request Entity Too Large\r\n"));
        }
        other => panic!("unexpected action {:?}", other),
    }
    assert_eq!(adapter.phase(), Phase::Closed);
    assert_eq!(adapter.run(&config, Event::ClientData(head[max..].to_vec())), Action::Finish);
}

#[test]
fn oversized_head_in_small_reads_gets_431() {
    let config = config_with(&[("/api", "127.0.0.1:9001")], 64);
    let mut adapter = Adapter::new(&config);
    let head = b"GET /api/users HTTP/1.1\r\nX-Long: 0123456789012345678901234567890123456789\r\n\r\n";
    let mut reads = 0;
    let mut offset = 0;
    loop {
        let end = (offset + 10).min(head.len());
        let a = adapter.run(&config, Event::ClientData(head[offset..end].to_vec()));
        reads += 1;
        offset = end;
        match a {
            Action::ReadClient(_) => continue,
            Action::Reject(BridgeError::RequestTooLarge, bytes) => {
                assert!(starts_with(&bytes, "HTTP/1.1 431"));
                break;
            }
            other => panic!("unexpected action {:?}", other),
        }
    }
    assert_eq!(reads, 7);
}

#[test]
fn chunked_head_matches_contiguous() {
    let config = api_config();
    let request = b"POST /api/items HTTP/1.1\r\nHost: x\r\nContent-Length: 3\r\n\r\n".to_vec();

    let mut whole = Adapter::new(&config);
    assert_eq!(whole.run(&config, Event::ClientData(request.clone())), Action::Connect(0));
    let whole_send = whole.run(&config, Event::Connected);

    for split in [1usize, 5, 17, 30, 40] {
        let mut chunked = Adapter::new(&config);
        let mut last = Action::Finish;
        let mut offset = 0;
        while offset < request.len() {
            let end = (offset + split).min(request.len());
            last = chunked.run(&config, Event::ClientData(request[offset..end].to_vec()));
            offset = end;
            if last != Action::ReadClient(8192 - offset) {
                break;
            }
        }
        assert_eq!(last, Action::Connect(0));
        assert_eq!(chunked.run(&config, Event::Connected), whole_send);
        assert_eq!(chunked.run(&config, Event::Sent), Action::CopyToBackend(0, 3));
    }
    assert_eq!(whole_send, Action::SendToBackend(0, request));
}

#[test]
fn body_bytes_forwarded_exactly() {
    let config = api_config();
    let mut adapter = Adapter::new(&config);
    let head = b"POST /api/x HTTP/1.1\r\nContent-Length: 10\r\n\r\n".to_vec();
    let mut first = head.clone();
    first.extend_from_slice(b"0123");
    assert_eq!(adapter.run(&config, Event::ClientData(first.clone())), Action::Connect(0));
    assert_eq!(adapter.run(&config, Event::Connected), Action::SendToBackend(0, first));
    assert_eq!(adapter.run(&config, Event::Sent), Action::CopyToBackend(0, 6));
    assert_eq!(adapter.run(&config, Event::Copied), Action::ReadBackend(0, 8192));
}

#[test]
fn body_fully_buffered_keeps_following_bytes() {
    let config = api_config();
    let mut adapter = Adapter::new(&config);
    let mut read = b"POST /api/x HTTP/1.1\r\nContent-Length: 4\r\n\r\nabcd".to_vec();
    let forwarded = read.clone();
    read.extend_from_slice(b"GET /api/y HTTP/1.1\r\n\r\n");
    assert_eq!(adapter.run(&config, Event::ClientData(read)), Action::Connect(0));
    assert_eq!(adapter.run(&config, Event::Connected), Action::SendToBackend(0, forwarded));
    assert_eq!(adapter.run(&config, Event::Sent), Action::ReadBackend(0, 8192));
}

#[test]
fn response_relayed_byte_for_byte() {
    let config = api_config();
    let mut adapter = Adapter::new(&config);
    let request = b"GET /api/echo HTTP/1.1\r\n\r\n".to_vec();
    adapter.run(&config, Event::ClientData(request));
    adapter.run(&config, Event::Connected);
    assert_eq!(adapter.run(&config, Event::Sent), Action::ReadBackend(0, 8192));
    let part1 = b"HTTP/1.1 200 OK\r\nContent-Le".to_vec();
    assert_eq!(
        adapter.run(&config, Event::BackendData(part1.clone())),
        Action::ReadBackend(0, 8192 - part1.len())
    );
    let part2 = b"ngth: 11\r\n\r\nhello".to_vec();
    let mut expected = part1.clone();
    expected.extend_from_slice(&part2);
    assert_eq!(adapter.run(&config, Event::BackendData(part2)), Action::SendToClient(expected));
    assert_eq!(adapter.run(&config, Event::Sent), Action::CopyToClient(0, 6));
    assert_eq!(adapter.run(&config, Event::Copied), Action::ReadClient(8192));
    assert_eq!(adapter.phase(), Phase::AwaitingRequest);
}

#[test]
fn pipelined_requests_handled_in_turn() {
    let config = api_config();
    let mut adapter = Adapter::new(&config);
    let first = b"GET /api/a HTTP/1.1\r\nHost: x\r\n\r\n".to_vec();
    let second = b"GET /api/b HTTP/1.1\r\nHost: x\r\n\r\n".to_vec();
    let mut both = first.clone();
    both.extend_from_slice(&second);
    assert_eq!(adapter.run(&config, Event::ClientData(both)), Action::Connect(0));
    assert_eq!(adapter.run(&config, Event::Connected), Action::SendToBackend(0, first));
    assert_eq!(adapter.run(&config, Event::Sent), Action::ReadBackend(0, 8192));
    let response = b"HTTP/1.1 204 No Content\r\n\r\n".to_vec();
    assert_eq!(
        adapter.run(&config, Event::BackendData(response.clone())),
        Action::SendToClient(response)
    );
    // Only once the first response is out is the second request parsed, and
    // the open backend connection is reused.
    assert_eq!(adapter.run(&config, Event::Sent), Action::SendToBackend(0, second));
}

#[test]
fn clean_close_between_requests() {
    let config = api_config();
    let mut adapter = Adapter::new(&config);
    assert_eq!(adapter.run(&config, Event::ClientData(Vec::new())), Action::Finish);
    assert_eq!(adapter.phase(), Phase::Closed);
}

#[test]
fn close_mid_head_is_bad_request() {
    let config = api_config();
    let mut adapter = Adapter::new(&config);
    assert_eq!(
        adapter.run(&config, Event::ClientData(b"GET /api".to_vec())),
        Action::ReadClient(8192 - 8)
    );
    match adapter.run(&config, Event::ClientData(Vec::new())) {
        Action::Reject(BridgeError::ClientVanished, bytes) => assert!(starts_with(&bytes, "HTTP/1.1 400")),
        other => panic!("unexpected action {:?}", other),
    }
}

#[test]
fn malformed_request_is_bad_request() {
    let config = api_config();
    let mut adapter = Adapter::new(&config);
    match adapter.run(&config, Event::ClientData(b"GET /api HTTP/1.1\r\nBad Header\r\n\r\n".to_vec())) {
        Action::Reject(BridgeError::MalformedRequest(FrameError::Malformed), bytes) => {
            assert!(starts_with(&bytes, "HTTP/1.1 400"))
        }
        other => panic!("unexpected action {:?}", other),
    }
}

#[test]
fn invalid_content_length_is_bad_request() {
    let config = api_config();
    let mut adapter = Adapter::new(&config);
    match adapter.run(
        &config,
        Event::ClientData(b"POST /api HTTP/1.1\r\nContent-Length: ten\r\n\r\n".to_vec()),
    ) {
        Action::Reject(BridgeError::MalformedRequest(FrameError::InvalidContentLength), _) => {}
        other => panic!("unexpected action {:?}", other),
    }
}

#[test]
fn first_matching_rule_wins() {
    let config = config_with(&[("/a", "127.0.0.1:1"), ("/ab", "127.0.0.1:2"), ("/", "127.0.0.1:3")], 8192);
    let mut adapter = Adapter::new(&config);
    assert_eq!(
        adapter.run(&config, Event::ClientData(b"GET /zzz HTTP/1.1\r\n\r\n".to_vec())),
        Action::Connect(2)
    );
}

#[test]
fn connect_failure_aborts() {
    let config = api_config();
    let mut adapter = Adapter::new(&config);
    adapter.run(&config, Event::ClientData(b"GET /api HTTP/1.1\r\n\r\n".to_vec()));
    assert_eq!(adapter.run(&config, Event::ConnectFailed), Action::Abort(BridgeError::ConnectFailed));
    assert_eq!(adapter.phase(), Phase::Closed);
}

#[test]
fn truncated_request_body_aborts() {
    let config = api_config();
    let mut adapter = Adapter::new(&config);
    adapter.run(&config, Event::ClientData(b"POST /api HTTP/1.1\r\nContent-Length: 5\r\n\r\n".to_vec()));
    adapter.run(&config, Event::Connected);
    assert_eq!(adapter.run(&config, Event::Sent), Action::CopyToBackend(0, 5));
    assert_eq!(adapter.run(&config, Event::CopyTruncated(2)), Action::Abort(BridgeError::ClientEof(2)));
}

#[test]
fn backend_failures_abort() {
    let config = api_config();
    let start = |adapter: &mut Adapter| {
        adapter.run(&config, Event::ClientData(b"GET /api HTTP/1.1\r\n\r\n".to_vec()));
        adapter.run(&config, Event::Connected);
        adapter.run(&config, Event::Sent);
    };
    let mut a = Adapter::new(&config);
    start(&mut a);
    assert_eq!(a.run(&config, Event::BackendData(Vec::new())), Action::Abort(BridgeError::BackendEof));

    let mut b = Adapter::new(&config);
    start(&mut b);
    assert_eq!(
        b.run(&config, Event::BackendData(b"NOT HTTP\r\n\r\n".to_vec())),
        Action::Abort(BridgeError::MalformedResponse(FrameError::Malformed))
    );

    let mut c = Adapter::new(&config);
    start(&mut c);
    c.run(&config, Event::BackendData(b"HTTP/1.1 200 OK\r\nContent-Length: 9\r\n\r\nab".to_vec()));
    c.run(&config, Event::Sent);
    assert_eq!(c.run(&config, Event::CopyTruncated(7)), Action::Abort(BridgeError::BackendEofInBody(7)));

    let mut d = Adapter::new(&config);
    start(&mut d);
    assert_eq!(d.run(&config, Event::Copied), Action::Abort(BridgeError::UnexpectedEvent));
}

#[test]
fn oversized_response_head_aborts() {
    let config = config_with(&[("/api", "127.0.0.1:9001")], 32);
    let mut adapter = Adapter::new(&config);
    adapter.run(&config, Event::ClientData(b"GET /api HTTP/1.1\r\n\r\n".to_vec()));
    adapter.run(&config, Event::Connected);
    assert_eq!(adapter.run(&config, Event::Sent), Action::ReadBackend(0, 32));
    assert_eq!(
        adapter.run(&config, Event::BackendData(b"HTTP/1.1 200 OK\r\nX-Header: 0123456".to_vec())),
        Action::Abort(BridgeError::ResponseTooLarge)
    );
}

#[test]
fn request_without_path_is_bad_request() {
    let config = api_config();
    let mut adapter = Adapter::new(&config);
    match adapter.run(&config, Event::ClientData(b"GET  HTTP/1.1\r\n\r\n".to_vec())) {
        Action::Reject(_, bytes) => assert!(starts_with(&bytes, "HTTP/1.1 400")),
        other => panic!("unexpected action {:?}", other),
    }
}
