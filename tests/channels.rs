use musicbox::{MessagePoll, Message, MessageReceiver, MessageSender, SyncMessageChannel};

fn payload(p: MessagePoll<u32>) -> Option<u32> {
    match p {
        MessagePoll::Ready(m) => Some(m.payload),
        _ => None,
    }
}

#[test]
fn ready_source_is_served_while_others_wait() {
    let mut r: MessageReceiver<u32> = MessageReceiver::new();
    let (slow, _) = r.sender();
    let (fast, _) = r.sender();
    let (idle, _) = r.sender();
    assert_ne!(slow, fast);
    for i in 0..5u32 {
        r.push(fast, Message::new(i as u64, i));
    }
    let mut got = Vec::new();
    for _ in 0..5 {
        got.push(payload(r.poll_next()).unwrap());
    }
    assert_eq!(got, vec![0, 1, 2, 3, 4]);
    assert!(matches!(r.poll_next(), MessagePoll::Pending));
    let _ = idle;
}

#[test]
fn sources_take_turns() {
    let mut r: MessageReceiver<u32> = MessageReceiver::new();
    let (a, _) = r.sender();
    let (b, _) = r.sender();
    r.push(a, Message::new(0, 10));
    r.push(a, Message::new(0, 11));
    r.push(b, Message::new(0, 20));
    r.push(b, Message::new(0, 21));
    let got: Vec<u32> = (0..4).map(|_| payload(r.poll_next()).unwrap()).collect();
    assert_eq!(got, vec![20, 10, 21, 11]);
}

#[test]
fn adding_a_source_wakes_a_waiting_poll() {
    let mut r: MessageReceiver<u32> = MessageReceiver::new();
    let (a, wake) = r.sender();
    assert!(!wake);
    assert!(matches!(r.poll_next(), MessagePoll::Pending));
    let (b, wake) = r.sender();
    assert!(wake);
    assert!(r.close(a) == false);
    r.push(b, Message::new(3, 7));
    assert_eq!(payload(r.poll_next()), Some(7));
    assert!(matches!(r.poll_next(), MessagePoll::Pending));
    assert!(!r.is_terminated());
}

#[test]
fn ended_sources_are_dropped_after_draining() {
    let mut r: MessageReceiver<u32> = MessageReceiver::new();
    let (a, _) = r.sender();
    r.push(a, Message::new(1, 1));
    r.close(a);
    assert_eq!(payload(r.poll_next()), Some(1));
    assert!(matches!(r.poll_next(), MessagePoll::Ended));
    assert!(r.is_terminated());
}

#[test]
fn push_wakes_only_a_waiting_poll() {
    let mut r: MessageReceiver<u32> = MessageReceiver::new();
    let (a, _) = r.sender();
    assert!(!r.push(a, Message::new(0, 1)));
    let _ = r.poll_next();
    assert!(matches!(r.poll_next(), MessagePoll::Pending));
    assert!(r.push(a, Message::new(0, 2)));
    assert!(!r.push(99, Message::new(0, 3)));
}

#[test]
fn broadcast_reaches_every_listener() {
    let mut s: MessageSender<u32> = MessageSender::new();
    let a = s.receiver();
    assert_eq!(s.send(Message::new(1, 5)), Vec::<u64>::new());
    let b = s.receiver();
    assert_eq!(s.take(b), None);
    assert_eq!(s.send(Message::new(2, 6)), vec![b]);
    assert_eq!(s.take(a), Some(Message::new(1, 5)));
    assert_eq!(s.take(a), Some(Message::new(2, 6)));
    assert_eq!(s.take(a), None);
    assert_eq!(s.take(b), Some(Message::new(2, 6)));
    s.remove(b);
    assert_eq!(s.take(a), None);
    assert_eq!(s.send(Message::new(3, 7)), vec![a]);
    assert_eq!(s.take(b), None);
    assert_eq!(s.take(a), Some(Message::new(3, 7)));
}

#[test]
fn channel_delivers_in_order_and_wakes() {
    let mut c: SyncMessageChannel<u32> = SyncMessageChannel::init();
    assert_eq!(payload(c.take()), None);
    assert!(c.send(Message::new(1, 10)));
    assert!(!c.send(Message::new(2, 20)));
    assert_eq!(payload(c.take()), Some(10));
    assert_eq!(payload(c.take()), Some(20));
    assert!(matches!(c.take(), MessagePoll::Pending));
}

#[test]
fn closed_channel_drains_then_ends() {
    let mut c: SyncMessageChannel<u32> = SyncMessageChannel::init();
    c.send(Message::new(1, 10));
    assert!(!c.close());
    assert_eq!(payload(c.take()), Some(10));
    assert!(matches!(c.take(), MessagePoll::Ended));
    let mut d: SyncMessageChannel<u32> = SyncMessageChannel::init();
    assert!(matches!(d.take(), MessagePoll::Pending));
    assert!(d.close());
    assert!(matches!(d.take(), MessagePoll::Ended));
}
