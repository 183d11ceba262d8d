use rproxy::handshake::{control_line, Incoming, Payload};
use rproxy::proto::CtrlMsg;
use rproxy::server::config::{listen_addr, Config};
use rproxy::server::driver::{
    Answer, DriveEvent, Driver, InboundPoll, Next, OutboundPoll, RequestPoll,
};
use rproxy::server::pool::{
    pick_from, sort_by_id, Asked, PoolError, ProviderHandle, ProviderPool,
};
use rproxy::server::provider::{
    ProviderAction, ProviderError, ProviderEvent, ProviderSession,
};
use std::sync::Arc;

#[test]
fn server_defaults() {
    let cfg = Config::default();
    assert_eq!((cfg.socks5_port, cfg.http_port, cfg.provider_port), (1080, 8080, 8888));
    assert_eq!(cfg.provider_token, "change-me");
    assert_eq!(listen_addr(cfg.http_port), "0.0.0.0:8080");
    assert_eq!(listen_addr(0), "0.0.0.0:0");
}

#[test]
fn empty_pool() {
    let mut pool = ProviderPool::new();
    assert_eq!(pool.len(), 0);
    assert!(matches!(pool.pick(), Err(PoolError::NoProviders)));
    assert!(!pool.remove(&7));
    assert_eq!(ProviderPool::default().len(), 0);
}

#[test]
fn providers_come_and_go() {
    let mut pool = ProviderPool::new();
    pool.insert(ProviderHandle::new(7, Some("home".to_string()), Some("US-CA".to_string())));
    assert_eq!(pool.len(), 1);
    match pool.pick() {
        Ok(p) => {
            assert_eq!(p.id, 7);
            assert_eq!(p.label.as_deref(), Some("home"));
            assert_eq!(p.geo.as_deref(), Some("US-CA"));
        }
        Err(e) => panic!("{:?}", e),
    }
    pool.insert(ProviderHandle::new(7, None, None));
    assert_eq!(pool.len(), 1);
    assert!(pool.pick().is_ok_and(|p| p.label.is_none()));
    assert!(pool.remove(&7));
    assert!(!pool.remove(&7));
    assert_eq!(pool.len(), 0);
}

#[test]
fn round_robin() {
    let mut pool = ProviderPool::new();
    for id in 0..5u128 {
        pool.insert(ProviderHandle::new(id, None, None));
    }
    assert_eq!(pool.len(), 5);
    let mut picked: Vec<u128> = Vec::new();
    for _ in 0..10 {
        match pool.pick() {
            Ok(p) => picked.push(p.id),
            Err(e) => panic!("{:?}", e),
        }
    }
    assert_eq!(picked, [0, 1, 2, 3, 4, 0, 1, 2, 3, 4]);
    pool.remove(&3);
    picked.clear();
    for _ in 0..6 {
        match pool.pick() {
            Ok(p) => picked.push(p.id),
            Err(e) => panic!("{:?}", e),
        }
    }
    assert_eq!(picked, [2, 4, 0, 1, 2, 4]);
}

#[test]
fn turns() {
    let items = |ids: &[u128]| -> Vec<(u128, Arc<ProviderHandle>)> {
        ids.iter().map(|id| (*id, ProviderHandle::new(*id, None, None))).collect()
    };
    assert_eq!(pick_from(items(&[10, 20, 30]), 0).id, 10);
    assert_eq!(pick_from(items(&[10, 20, 30]), 1).id, 20);
    assert_eq!(pick_from(items(&[10, 20, 30]), 5).id, 30);
    assert_eq!(pick_from(items(&[10, 20, 30]), usize::MAX).id, 10);
}

#[test]
fn lists_are_ordered_by_identifier() {
    let items: Vec<(u128, Arc<ProviderHandle>)> = [30u128, 10, u128::MAX, 20, 0]
        .iter()
        .map(|id| (*id, ProviderHandle::new(*id, None, None)))
        .collect();
    let ids: Vec<u128> = sort_by_id(items).iter().map(|item| item.1.id).collect();
    assert_eq!(ids, [0, 10, 20, 30, u128::MAX]);
    assert!(sort_by_id(Vec::new()).is_empty());
}

#[test]
fn opening_a_stream() {
    let p = ProviderHandle::new(0xa1a2a3a4b1b2c1c2d1d2d3d4d5d6d7d8, None, None);
    assert_eq!(p.open_stream(Asked::Replied(Ok(3))), Ok(3));
    assert_eq!(
        p.open_stream::<u8>(Asked::Replied(Err("no".to_string()))),
        Err("no".to_string())
    );
    assert_eq!(
        p.open_stream::<u8>(Asked::Disconnected),
        Err("provider a1a2a3a4-b1b2-c1c2-d1d2-d3d4d5d6d7d8 disconnected".to_string())
    );
    assert_eq!(
        p.open_stream::<u8>(Asked::Dropped),
        Err("provider a1a2a3a4-b1b2-c1c2-d1d2-d3d4d5d6d7d8 driver dropped reply".to_string())
    );
}

fn request(t: u32) -> DriveEvent<u32> {
    DriveEvent::Request(RequestPoll::Request(t))
}

#[test]
fn requests_are_answered_in_order() {
    let mut d: Driver<u32> = Driver::new();
    assert!(matches!(d.step(request(1)), (None, Next::Requests)));
    assert!(matches!(d.step(request(2)), (None, Next::Requests)));
    assert!(matches!(
        d.step(DriveEvent::Request(RequestPoll::Pending)),
        (None, Next::Outbound)
    ));
    assert!(matches!(
        d.step(DriveEvent::Outbound(OutboundPoll::Opened)),
        (Some(Answer::Stream(1)), Next::Outbound)
    ));
    assert!(matches!(
        d.step(DriveEvent::Outbound(OutboundPoll::Pending)),
        (None, Next::Inbound)
    ));
    assert!(matches!(
        d.step(DriveEvent::Inbound(InboundPoll::Stream)),
        (None, Next::Inbound)
    ));
    assert!(matches!(
        d.step(DriveEvent::Inbound(InboundPoll::Pending)),
        (None, Next::Wait)
    ));
    assert!(matches!(d.step(request(3)), (None, Next::Requests)));
    assert!(matches!(
        d.step(DriveEvent::Request(RequestPoll::Pending)),
        (None, Next::Outbound)
    ));
    assert!(matches!(
        d.step(DriveEvent::Outbound(OutboundPoll::Opened)),
        (Some(Answer::Stream(2)), Next::Outbound)
    ));
    assert!(matches!(
        d.step(DriveEvent::Outbound(OutboundPoll::Opened)),
        (Some(Answer::Stream(3)), Next::Inbound)
    ));
    assert!(d.close().is_empty());
}

#[test]
fn driver_stops() {
    let mut d: Driver<u32> = Driver::new();
    assert!(matches!(
        d.step(DriveEvent::Request(RequestPoll::Pending)),
        (None, Next::Inbound)
    ));
    assert!(matches!(
        d.step(DriveEvent::Inbound(InboundPoll::Closed)),
        (None, Next::Stop)
    ));
    let mut d: Driver<u32> = Driver::new();
    assert!(matches!(
        d.step(DriveEvent::Request(RequestPoll::Closed)),
        (None, Next::Stop)
    ));
    let mut d: Driver<u32> = Driver::new();
    assert!(matches!(
        d.step(DriveEvent::Inbound(InboundPoll::Failed("x".to_string()))),
        (None, Next::Stop)
    ));
}

#[test]
fn waiting_requests_are_told_of_the_end() {
    let mut d: Driver<u32> = Driver::new();
    for t in [1, 2, 3] {
        d.step(request(t));
    }
    match d.step(DriveEvent::Outbound(OutboundPoll::Failed("broken".to_string()))) {
        (Some(Answer::Error(1, e)), Next::Stop) => assert_eq!(e, "yamux outbound: broken"),
        _ => panic!("the first request is answered"),
    }
    let rest: Vec<(u32, String)> = d
        .close()
        .into_iter()
        .map(|a| match a {
            Answer::Error(t, e) => (t, e),
            Answer::Stream(_) => panic!("no stream is open"),
        })
        .collect();
    let closed = "provider connection closed".to_string();
    assert_eq!(rest, [(2, closed.clone()), (3, closed)]);
}

fn register(token: &str) -> ProviderEvent {
    ProviderEvent::Decoded(Ok(CtrlMsg::Register {
        token: token.to_string(),
        geo: Some("DE".to_string()),
        label: None,
    }))
}

fn decoding(token: &String, pool: &mut ProviderPool) -> ProviderSession {
    let (s, a) = ProviderSession::new();
    assert!(matches!(a, ProviderAction::Receive));
    let (s, a) = s.step(token, pool, ProviderEvent::Incoming(Incoming::Text("{}".to_string())));
    assert!(matches!(a, ProviderAction::Decode(Payload::Text(t)) if t == "{}"));
    s
}

#[test]
fn provider_session_with_the_token() {
    let token = "secret".to_string();
    let mut pool = ProviderPool::new();
    let s = decoding(&token, &mut pool);
    let event = register("secret");
    assert!(s.accepts(&event));
    let (s, a) = s.step_with_id(&token, &mut pool, event, 0x10);
    match a {
        ProviderAction::Send(CtrlMsg::Registered { provider_id }) => {
            assert_eq!(provider_id, "00000000-0000-0000-0000-000000000010");
        }
        other => panic!("{:?}", other),
    }
    assert_eq!(pool.len(), 0);
    let (s, a) = s.step(&token, &mut pool, ProviderEvent::Sent);
    assert!(matches!(a, ProviderAction::Drive(0x10)));
    assert_eq!(pool.len(), 1);
    match pool.pick() {
        Ok(p) => {
            assert_eq!(p.id, 0x10);
            assert_eq!(p.geo.as_deref(), Some("DE"));
            assert_eq!(p.label, None);
        }
        Err(e) => panic!("{:?}", e),
    }
    let (s, a) = s.step(&token, &mut pool, ProviderEvent::Stopped);
    assert!(matches!(a, ProviderAction::Close { reply: None, error: None }));
    assert_eq!(pool.len(), 0);
    assert!(!s.accepts(&ProviderEvent::Stopped));
}

#[test]
fn identifiers_are_random() {
    let token = "secret".to_string();
    let mut pool = ProviderPool::new();
    let mut ids = Vec::new();
    for _ in 0..2 {
        let s = decoding(&token, &mut pool);
        let (_, a) = s.step(&token, &mut pool, register("secret"));
        match a {
            ProviderAction::Send(CtrlMsg::Registered { provider_id }) => ids.push(provider_id),
            other => panic!("{:?}", other),
        }
    }
    for id in &ids {
        assert_eq!(id.len(), 36);
        assert_eq!(id.as_bytes()[14], b'4');
        assert!(b"89ab".contains(&id.as_bytes()[19]));
    }
    assert_ne!(ids[0], ids[1]);
}

#[test]
fn provider_session_without_the_token() {
    let token = "secret".to_string();
    let mut pool = ProviderPool::new();
    let s = decoding(&token, &mut pool);
    let (s, a) = s.step(&token, &mut pool, register("Secret"));
    match a {
        ProviderAction::Close {
            reply: Some(CtrlMsg::Rejected { reason }),
            error: Some(e @ ProviderError::InvalidToken),
        } => {
            assert_eq!(reason, "invalid token");
            assert_eq!(e.message(), "invalid provider token");
        }
        other => panic!("{:?}", other),
    }
    assert_eq!(pool.len(), 0);
    assert!(!s.accepts(&ProviderEvent::Sent));
}

#[test]
fn provider_session_failures() {
    let token = "secret".to_string();
    let mut pool = ProviderPool::new();
    let (s, _) = ProviderSession::new();
    let other = ProviderEvent::Incoming(Incoming::Other("None".to_string()));
    let (_, a) = s.step(&token, &mut pool, other);
    assert!(matches!(
        a,
        ProviderAction::Close { reply: None, error: Some(ProviderError::NotAMessage(w)) }
            if w == "None"
    ));
    let (s, _) = ProviderSession::new();
    let (_, a) = s.step(&token, &mut pool, ProviderEvent::Incoming(Incoming::Binary(vec![1])));
    assert!(matches!(a, ProviderAction::Decode(Payload::Binary(b)) if b == [1]));
    let s = decoding(&token, &mut pool);
    let (_, a) = s.step(&token, &mut pool, ProviderEvent::Decoded(Err("eof".to_string())));
    assert!(matches!(
        a,
        ProviderAction::Close { reply: None, error: Some(ProviderError::Malformed(e)) }
            if e == "eof"
    ));
    let s = decoding(&token, &mut pool);
    let odd = CtrlMsg::Rejected { reason: "odd".to_string() };
    let (_, a) = s.step(&token, &mut pool, ProviderEvent::Decoded(Ok(odd)));
    assert!(matches!(
        a,
        ProviderAction::Close {
            reply: None,
            error: Some(ProviderError::NotARegistration(CtrlMsg::Rejected { .. })),
        }
    ));
    let s = decoding(&token, &mut pool);
    let (s, _) = s.step(&token, &mut pool, register("secret"));
    let (_, a) = s.step(&token, &mut pool, ProviderEvent::Broken("reset".to_string()));
    assert!(matches!(
        a,
        ProviderAction::Close { reply: None, error: Some(ProviderError::Io(e)) } if e == "reset"
    ));
    assert_eq!(pool.len(), 0);
}

#[test]
fn control_messages_are_lines() {
    assert_eq!(control_line("{\"a\":1}".to_string()), "{\"a\":1}\n");
}

#[test]
fn pool_is_left_as_it_was() {
    let token = "secret".to_string();
    let mut pool = ProviderPool::new();
    pool.insert(ProviderHandle::new(7, Some("other".to_string()), None));
    let (s, _) = ProviderSession::new();
    let hello = ProviderEvent::Incoming(Incoming::Text("{}".to_string()));
    let (s, _) = s.step_with_id(&token, &mut pool, hello, 7);
    let (s, _) = s.step_with_id(&token, &mut pool, register("secret"), 8);
    let (s, a) = s.step_with_id(&token, &mut pool, ProviderEvent::Sent, 7);
    assert!(matches!(a, ProviderAction::Drive(8)));
    assert_eq!(pool.len(), 2);
    let (_, a) = s.step_with_id(&token, &mut pool, ProviderEvent::Stopped, 7);
    assert!(matches!(a, ProviderAction::Close { reply: None, error: None }));
    assert_eq!(pool.len(), 1);
    assert!(pool.pick().is_ok_and(|p| p.id == 7 && p.label.as_deref() == Some("other")));
}
