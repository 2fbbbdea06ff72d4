use whisper_notes::exchange::{Exchange, ExchangeAction, ExchangeEvent};
use whisper_notes::ipc::{
    announced_length, get_request, keep_parsed, length_prefix, lines_to_parse, read_marker_set,
    request, set_request, IpcResponse, Transcription,
};

fn response(status: &str, text: &str) -> IpcResponse {
    IpcResponse {
        status: status.to_string(),
        text: text.to_string(),
    }
}

#[test]
fn requests() {
    assert_eq!(set_request().command, "set");
    assert_eq!(get_request().command, "get");
    assert_eq!(set_request().uid, "whisper-notes");
    assert_eq!(get_request().uid, "whisper-notes");
    let other = request("a", "b");
    assert_eq!((other.command.as_str(), other.uid.as_str()), ("a", "b"));
}

#[test]
fn lengths() {
    for n in [0u32, 1, 255, 256, 65_535, 65_536, 16_777_216, 0x0102_0304, u32::MAX] {
        assert_eq!(length_prefix(n as usize), n.to_be_bytes().to_vec());
        assert_eq!(announced_length(&n.to_be_bytes().to_vec()), n as usize);
    }
}

#[test]
fn lengths_beyond_four_bytes_lose_their_front() {
    let len = 0x1_0000_0005u64 as usize;
    assert_eq!(length_prefix(len), (len as u32).to_be_bytes().to_vec());
}

#[test]
fn read_marker() {
    assert!(read_marker_set(&Ok(response("ok", ""))));
    assert!(!read_marker_set(&Ok(response("OK", ""))));
    assert!(!read_marker_set(&Ok(response("error", "ok"))));
    assert!(!read_marker_set(&Err("ok".to_string())));
}

#[test]
fn transcription_lines() {
    assert_eq!(
        lines_to_parse(&Ok(response("ok", "{\"text\":\"a\"}\r\n\n{}"))),
        vec!["{\"text\":\"a\"}", "", "{}"]
    );
    assert!(lines_to_parse(&Ok(response("ok", ""))).is_empty());
    assert!(lines_to_parse(&Ok(response("error", "a"))).is_empty());
    assert!(lines_to_parse(&Err("a".to_string())).is_empty());
}

#[test]
fn unreadable_lines_are_left_out() {
    let item = |s: &str| {
        Some(Transcription {
            text: s.to_string(),
        })
    };
    let kept = keep_parsed(vec![None, item("a"), None, item("b"), item("")]);
    let texts: Vec<&str> = kept.iter().map(|t| t.text.as_str()).collect();
    assert_eq!(texts, vec!["a", "b", ""]);
    assert!(keep_parsed(vec![]).is_empty());
}

#[test]
fn an_exchange() {
    let exchange = Exchange::new(get_request());
    assert!(matches!(exchange.action(), ExchangeAction::Connect));
    let exchange = exchange.advance(ExchangeEvent::Done);
    match exchange.action() {
        ExchangeAction::Encode(request) => assert_eq!(request.command, "get"),
        _ => panic!(),
    }
    let exchange = exchange.advance(ExchangeEvent::Bytes(b"{}".to_vec()));
    assert!(matches!(exchange.action(), ExchangeAction::Write(b) if b == vec![0, 0, 0, 2]));
    let exchange = exchange.advance(ExchangeEvent::Done);
    assert!(matches!(exchange.action(), ExchangeAction::Write(b) if b == b"{}".to_vec()));
    let exchange = exchange.advance(ExchangeEvent::Done);
    assert!(matches!(exchange.action(), ExchangeAction::Read(4)));
    let exchange = exchange.advance(ExchangeEvent::Bytes(vec![0, 0, 1, 1]));
    assert!(matches!(exchange.action(), ExchangeAction::Read(257)));
    let exchange = exchange.advance(ExchangeEvent::Bytes(vec![7; 257]));
    assert!(matches!(exchange.action(), ExchangeAction::Decode(b) if b == vec![7; 257]));
    let exchange = exchange.advance(ExchangeEvent::Response(response("ok", "t")));
    match exchange.action() {
        ExchangeAction::Return(Ok(r)) => assert_eq!((r.status.as_str(), r.text.as_str()), ("ok", "t")),
        _ => panic!(),
    }
    let exchange = exchange.advance(ExchangeEvent::Failed("late".to_string()));
    assert!(matches!(exchange.action(), ExchangeAction::Return(Ok(_))));
}

fn exchange_after(steps: usize) -> Exchange {
    let mut exchange = Exchange::new(set_request());
    for event in [
        ExchangeEvent::Done,
        ExchangeEvent::Bytes(vec![1]),
        ExchangeEvent::Done,
        ExchangeEvent::Done,
        ExchangeEvent::Bytes(vec![0, 0, 0, 3]),
        ExchangeEvent::Bytes(vec![1, 2, 3]),
    ]
    .into_iter()
    .take(steps)
    {
        exchange = exchange.advance(event);
    }
    exchange
}

#[test]
fn failures_of_an_exchange() {
    for (steps, expected) in [
        (0, "Connect failed: gone"),
        (1, "JSON encode failed: gone"),
        (2, "Write length failed: gone"),
        (3, "Write payload failed: gone"),
        (4, "Read length failed: gone"),
        (5, "Read payload failed: gone"),
        (6, "JSON decode failed: gone"),
    ] {
        let failed = exchange_after(steps).advance(ExchangeEvent::Failed("gone".to_string()));
        match failed.action() {
            ExchangeAction::Return(Err(message)) => assert_eq!(message, expected),
            _ => panic!("{}", steps),
        }
    }
}

#[test]
fn events_that_answer_nothing_change_nothing() {
    let exchange = exchange_after(4).advance(ExchangeEvent::Bytes(vec![1]));
    assert!(matches!(exchange.action(), ExchangeAction::Read(4)));
    let exchange = exchange_after(5).advance(ExchangeEvent::Bytes(vec![1]));
    assert!(matches!(exchange.action(), ExchangeAction::Read(3)));
    let exchange = exchange_after(0).advance(ExchangeEvent::Response(response("ok", "")));
    assert!(matches!(exchange.action(), ExchangeAction::Connect));
}
