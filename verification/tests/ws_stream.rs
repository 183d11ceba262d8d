use rproxy::ws_stream::{Polled, ReadStep, Readiness, WriteStep, WsBinary};

fn data(step: ReadStep) -> Vec<u8> {
    match step {
        ReadStep::Data(d) => d,
        other => panic!("{:?}", other),
    }
}

#[test]
fn nothing_is_buffered_at_first() {
    let mut ws = WsBinary::new();
    assert!(matches!(ws.poll_read(10, None), ReadStep::Poll));
    assert!(matches!(ws.poll_read(10, Some(Polled::Pending)), ReadStep::Pending));
    assert!(matches!(ws.poll_read(10, Some(Polled::Other)), ReadStep::Poll));
}

#[test]
fn ends() {
    let mut ws = WsBinary::new();
    assert!(matches!(ws.poll_read(10, Some(Polled::Ended)), ReadStep::Eof));
    assert!(matches!(ws.poll_read(10, Some(Polled::Close)), ReadStep::Eof));
    match ws.poll_read(10, Some(Polled::Failed("reset".to_string()))) {
        ReadStep::Failed(e) => assert_eq!(e, "reset"),
        other => panic!("{:?}", other),
    }
}

#[test]
fn stream_is_the_payloads() {
    let mut ws = WsBinary::new();
    let mut out = Vec::new();
    out.extend(data(ws.poll_read(2, Some(Polled::Binary(vec![1, 2, 3])))));
    assert_eq!(out, [1, 2]);
    out.extend(data(ws.poll_read(2, None)));
    assert_eq!(out, [1, 2, 3]);
    assert!(matches!(ws.poll_read(2, None), ReadStep::Poll));
    assert!(matches!(ws.poll_read(2, Some(Polled::Binary(vec![]))), ReadStep::Poll));
    out.extend(data(ws.poll_read(100, Some(Polled::Binary(vec![4, 5])))));
    assert_eq!(out, [1, 2, 3, 4, 5]);
}

#[test]
fn no_room() {
    let mut ws = WsBinary::new();
    assert_eq!(data(ws.poll_read(0, Some(Polled::Binary(vec![1])))), [0u8; 0]);
    assert_eq!(data(ws.poll_read(1, None)), [1]);
}

#[test]
fn writes_are_binary_messages() {
    let ws = WsBinary::new();
    assert!(matches!(ws.poll_write(&[1], Readiness::Pending), WriteStep::Pending));
    assert!(matches!(
        ws.poll_write(&[1], Readiness::Failed("x".to_string())),
        WriteStep::Failed(e) if e == "x"
    ));
    match ws.poll_write(&[1, 2, 3], Readiness::Ready) {
        WriteStep::Send(msg) => assert_eq!(msg, [1, 2, 3]),
        other => panic!("{:?}", other),
    }
    assert_eq!(ws.written(&[1, 2, 3], Ok(())), Ok(3));
    assert_eq!(ws.written(&[1, 2, 3], Err("y".to_string())), Err("y".to_string()));
}

#[test]
fn written_bytes_are_read() {
    let writer = WsBinary::new();
    let mut reader = WsBinary::new();
    let mut out = Vec::new();
    for piece in [b"hello, ".to_vec(), Vec::new(), b"world".to_vec()] {
        let msg = match writer.poll_write(&piece, Readiness::Ready) {
            WriteStep::Send(msg) => msg,
            other => panic!("{:?}", other),
        };
        let mut step = reader.poll_read(3, Some(Polled::Binary(msg)));
        while let ReadStep::Data(d) = step {
            out.extend(d);
            step = reader.poll_read(3, None);
        }
        assert!(matches!(step, ReadStep::Poll));
    }
    assert_eq!(out, b"hello, world");
}
