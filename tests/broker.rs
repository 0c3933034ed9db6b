use std::sync::Arc;

use publio::channel::{Channel, QUEUE_CAPACITY};
use publio::decimal::{bytes_to_usize, usize_to_decimal, DecimalError};
use publio::message::Message;
use publio::protocol::{Action, Command, CommandDecoder, Feed};
use publio::session::{frame_header, keeps_reading, next_step, SessionError, Step};
use publio::table::{ChannelTable, TopicRangeError};

/// Feeds bytes until the decoder finishes; `Err(Connection)` if the input runs out first.
/// Also gives the number of bytes taken.
fn decode_all(bytes: &[u8]) -> (Result<Command, SessionError>, usize) {
    let mut decoder = CommandDecoder::new();
    for (i, b) in bytes.iter().enumerate() {
        match decoder.feed(*b) {
            Feed::NeedMore => {}
            Feed::Done(c) => return (Ok(c), i + 1),
            Feed::Malformed => return (Err(SessionError::Protocol), i + 1),
        }
    }
    (Err(SessionError::Connection), bytes.len())
}

fn step_of(bytes: &[u8], topics: usize) -> Step {
    next_step(decode_all(bytes).0, topics)
}

/// Hands a message to every subscriber of a channel, as a publisher does,
/// and drops those whose queue is closed. Gives the message id.
fn broadcast_now(chan: &mut Channel, msg: Arc<Message>) -> u64 {
    let (id, targets) = chan.begin_broadcast();
    let mut closed = Vec::new();
    for t in targets {
        let mut tx = chan.queue(t).expect("target is registered").clone();
        if tx.try_send(msg.clone()).is_err() {
            closed.push(t);
        }
    }
    chan.reclaim(&closed);
    id
}

fn payload(msg: &Arc<Message>) -> Vec<u8> {
    msg.data.clone()
}

#[test]
fn message_constructors_keep_bytes() {
    let m = Message::from_bytes(b"hello");
    assert_eq!(m.data, b"hello".to_vec());
    assert_eq!(m.len(), 5);
    let v = Message::from_vec(vec![1, 2, 3]);
    assert_eq!(v.data, vec![1, 2, 3]);
    assert_eq!(v.len(), 3);
    assert_eq!(Message::from_bytes(b"").len(), 0);
}

#[test]
fn decimal_reads_digits() {
    assert_eq!(bytes_to_usize(b"0"), Ok(0));
    assert_eq!(bytes_to_usize(b"42"), Ok(42));
    assert_eq!(bytes_to_usize(b"007"), Ok(7));
    assert_eq!(bytes_to_usize(b"18446744073709551615"), Ok(usize::MAX));
}

#[test]
fn decimal_errors() {
    assert_eq!(bytes_to_usize(b""), Err(DecimalError::Empty));
    assert_eq!(bytes_to_usize(b"12a"), Err(DecimalError::NotDigit));
    assert_eq!(bytes_to_usize(b"+5"), Err(DecimalError::NotDigit));
    assert_eq!(bytes_to_usize(b"-5"), Err(DecimalError::NotDigit));
    assert_eq!(bytes_to_usize(b"18446744073709551616"), Err(DecimalError::Overflow));
}

#[test]
fn decimal_spelling() {
    assert_eq!(usize_to_decimal(0), b"0".to_vec());
    assert_eq!(usize_to_decimal(1234), b"1234".to_vec());
    assert_eq!(usize_to_decimal(usize::MAX), b"18446744073709551615".to_vec());
}

#[test]
fn frame_header_spells_length() {
    assert_eq!(frame_header(5), b":5\r\n".to_vec());
    assert_eq!(frame_header(0), b":0\r\n".to_vec());
    assert_eq!(frame_header(1000), b":1000\r\n".to_vec());
}

#[test]
fn decoder_reads_each_verb_in_both_cases() {
    let cases: [(&[u8], u8); 6] = [
        (b"r7\r\n", 0),
        (b"R7\r\n", 0),
        (b"s7\r\n", 1),
        (b"S7\r\n", 1),
        (b"w7\r\n", 2),
        (b"W7\r\n", 2),
    ];
    for (line, kind) in cases.iter() {
        let (r, used) = decode_all(line);
        let cmd = r.ok().expect("valid command");
        assert_eq!(cmd.channel(), 7);
        assert_eq!(used, 4);
        let got = match cmd.action() {
            Action::SubStream => 0,
            Action::SubPacket => 1,
            Action::PubStream => 2,
            Action::PubPacket(_) => 3,
        };
        assert_eq!(got, *kind);
    }
}

#[test]
fn decoder_round_trip_multi_digit_topic() {
    let (r, used) = decode_all(b"w12345\r\nrest");
    let cmd = r.ok().expect("valid command");
    assert_eq!(cmd.channel(), 12345);
    assert_eq!(used, 8);
    assert!(matches!(cmd.action(), Action::PubStream));
}

#[test]
fn decoder_reads_framed_publish() {
    let (r, used) = decode_all(b"P12\r\n5\r\nhelloextra");
    let cmd = r.ok().expect("valid command");
    assert_eq!(cmd.channel(), 12);
    assert_eq!(used, 13);
    match cmd.action() {
        Action::PubPacket(m) => assert_eq!(payload(m), b"hello".to_vec()),
        _ => panic!("expected a framed publish"),
    }
}

#[test]
fn decoder_reads_empty_frame() {
    let (r, used) = decode_all(b"p0\r\n0\r\n");
    let cmd = r.ok().expect("valid command");
    assert_eq!(used, 7);
    match cmd.action() {
        Action::PubPacket(m) => assert_eq!(m.len(), 0),
        _ => panic!("expected a framed publish"),
    }
}

#[test]
fn decoder_rejects_malformed_lines() {
    assert!(matches!(decode_all(b"r\r\n").0, Err(SessionError::Protocol)));
    assert!(matches!(decode_all(b"r3\n").0, Err(SessionError::Protocol)));
    assert!(matches!(decode_all(b"r3x\r\n").0, Err(SessionError::Protocol)));
    assert!(matches!(decode_all(b"r+3\r\n").0, Err(SessionError::Protocol)));
    assert!(matches!(decode_all(b"p1\r\nx\r\n").0, Err(SessionError::Protocol)));
    assert!(matches!(
        decode_all(b"r18446744073709551616\r\n").0,
        Err(SessionError::Protocol)
    ));
}

#[test]
fn decoder_waits_for_complete_input() {
    assert!(matches!(decode_all(b"").0, Err(SessionError::Connection)));
    assert!(matches!(decode_all(b"r3\r").0, Err(SessionError::Connection)));
    assert!(matches!(decode_all(b"p1\r\n5\r\nhel").0, Err(SessionError::Connection)));
}

#[test]
fn invalid_verb_closes_without_broadcast() {
    let (r, used) = decode_all(b"x1\r\n");
    assert_eq!(used, 1);
    let step = next_step(r, 10);
    assert!(matches!(step, Step::Close(SessionError::Protocol)));
    assert!(!keeps_reading(&step));
}

#[test]
fn topic_out_of_range_closes() {
    let step = step_of(b"r15\r\n", 10);
    assert!(matches!(step, Step::Close(SessionError::TopicRange)));
    assert!(!keeps_reading(&step));
    assert!(matches!(step_of(b"p10\r\n1\r\na", 10), Step::Close(SessionError::TopicRange)));
    assert!(matches!(step_of(b"r9\r\n", 10), Step::SubscribeRaw(9)));
    let table = ChannelTable::new((0..10).collect::<Vec<usize>>());
    assert_eq!(table.len(), 10);
    assert_eq!(table.get(15).err(), Some(TopicRangeError { topic: 15, topics: 10 }));
    assert_eq!(table.get(10).err(), Some(TopicRangeError { topic: 10, topics: 10 }));
    assert_eq!(table.get(9).ok(), Some(&9));
}

#[test]
fn steps_for_each_action() {
    assert!(matches!(step_of(b"r3\r\n", 10), Step::SubscribeRaw(3)));
    assert!(matches!(step_of(b"s3\r\n", 10), Step::SubscribeFramed(3)));
    assert!(matches!(step_of(b"w3\r\n", 10), Step::PublishStream(3)));
    let step = step_of(b"p3\r\n2\r\nhi", 10);
    assert!(keeps_reading(&step));
    match step {
        Step::PublishFrame(3, m) => assert_eq!(payload(&m), b"hi".to_vec()),
        _ => panic!("expected a framed publish"),
    }
    assert!(matches!(
        next_step(Err(SessionError::Connection), 10),
        Step::Close(SessionError::Connection)
    ));
}

#[test]
fn raw_subscriber_receives_raw_stream() {
    let mut table: Vec<Channel> = (0..10).map(|_| Channel::new()).collect();
    let topic = match step_of(b"r3\r\n", 10) {
        Step::SubscribeRaw(t) => t,
        _ => panic!("expected a raw subscription"),
    };
    let mut rx = table[topic].register();
    let topic_b = match step_of(b"w3\r\n", 10) {
        Step::PublishStream(t) => t,
        _ => panic!("expected a raw publish"),
    };
    broadcast_now(&mut table[topic_b], Arc::new(Message::from_bytes(b"hello")));
    let got = rx.try_recv().ok().expect("a message");
    assert_eq!(payload(&got), b"hello".to_vec());
    assert!(rx.try_recv().is_err());
}

#[test]
fn framed_subscriber_receives_frames() {
    let mut table: Vec<Channel> = (0..10).map(|_| Channel::new()).collect();
    let topic = match step_of(b"s2\r\n", 10) {
        Step::SubscribeFramed(t) => t,
        _ => panic!("expected a framed subscription"),
    };
    let mut rx = table[topic].register();
    let mut written: Vec<u8> = Vec::new();
    for frame in [&b"p2\r\n5\r\nhello"[..], &b"p2\r\n3\r\nbye"[..]].iter() {
        let step = step_of(frame, 10);
        assert!(keeps_reading(&step));
        match step {
            Step::PublishFrame(t, m) => {
                broadcast_now(&mut table[t], m);
            }
            _ => panic!("expected a framed publish"),
        }
        let got = rx.try_recv().ok().expect("a message");
        written.extend(frame_header(got.len()));
        written.extend(payload(&got));
    }
    assert_eq!(written, b":5\r\nhello:3\r\nbye".to_vec());
}

#[test]
fn two_subscribers_see_messages_in_order() {
    let mut chan = Channel::new();
    let mut a = chan.register();
    let mut b = chan.register();
    let ids: Vec<u64> = ["A", "B", "C"]
        .iter()
        .map(|s| broadcast_now(&mut chan, Arc::new(Message::from_bytes(s.as_bytes()))))
        .collect();
    assert_eq!(ids, vec![0, 1, 2]);
    for rx in [&mut a, &mut b].iter_mut() {
        let seen: Vec<Vec<u8>> = (0..3).map(|_| payload(&rx.try_recv().ok().unwrap())).collect();
        assert_eq!(seen, vec![b"A".to_vec(), b"B".to_vec(), b"C".to_vec()]);
        assert!(rx.try_recv().is_err());
    }
}

#[test]
fn late_subscriber_gets_no_replay() {
    let mut chan = Channel::new();
    let mut early = chan.register();
    broadcast_now(&mut chan, Arc::new(Message::from_bytes(b"first")));
    let mut late = chan.register();
    broadcast_now(&mut chan, Arc::new(Message::from_bytes(b"second")));
    assert_eq!(payload(&early.try_recv().ok().unwrap()), b"first".to_vec());
    assert_eq!(payload(&early.try_recv().ok().unwrap()), b"second".to_vec());
    assert_eq!(payload(&late.try_recv().ok().unwrap()), b"second".to_vec());
    assert!(late.try_recv().is_err());
}

#[test]
fn topics_are_isolated() {
    let mut table: Vec<Channel> = (0..2).map(|_| Channel::new()).collect();
    let mut on_a = table[0].register();
    let mut on_b = table[1].register();
    broadcast_now(&mut table[0], Arc::new(Message::from_bytes(b"for a")));
    assert_eq!(payload(&on_a.try_recv().ok().unwrap()), b"for a".to_vec());
    assert!(on_b.try_recv().is_err());
}

#[test]
fn dead_subscriber_is_reclaimed() {
    let mut chan = Channel::new();
    let mut alive = chan.register();
    let dead = chan.register();
    drop(dead);
    let (_, targets) = chan.begin_broadcast();
    assert_eq!(targets.len(), 2);
    chan.reclaim(&Vec::new());
    broadcast_now(&mut chan, Arc::new(Message::from_bytes(b"x")));
    assert!(chan.queue(1).is_none());
    assert!(chan.queue(0).is_some());
    let (id, targets) = chan.begin_broadcast();
    assert_eq!(id, 2);
    assert_eq!(targets, vec![0]);
    assert_eq!(payload(&alive.try_recv().ok().unwrap()), b"x".to_vec());
}

#[test]
fn register_hands_out_fresh_ids() {
    let mut chan = Channel::new();
    let _r0 = chan.register();
    let _r1 = chan.register();
    chan.reclaim(&vec![0]);
    let _r2 = chan.register();
    let (_, mut targets) = chan.begin_broadcast();
    targets.sort();
    assert_eq!(targets, vec![1, 2]);
    assert!(QUEUE_CAPACITY > 0);
}

#[test]
fn old_paths_still_resolve() {
    let m = publio::channel::Message::from_bytes(b"ab");
    assert_eq!(m.len(), 2);
    assert_eq!(publio::util::bytes_to_usize(b"31"), Ok(31));
}

#[test]
fn registered_queue_holds_capacity_messages() {
    let mut chan = Channel::new();
    let mut rx = chan.register();
    let mut tx = chan.queue(0).expect("registered").clone();
    let msg = Arc::new(Message::from_bytes(b"m"));
    for _ in 0..QUEUE_CAPACITY {
        assert!(tx.try_send(msg.clone()).is_ok());
    }
    assert!(tx.try_send(msg.clone()).is_err());
    assert_eq!(payload(&rx.try_recv().ok().unwrap()), b"m".to_vec());
    assert!(tx.try_send(msg).is_ok());
}

#[test]
fn each_id_feeds_its_own_receiver() {
    let mut chan = Channel::new();
    let mut r0 = chan.register();
    let mut r1 = chan.register();
    let mut tx1 = chan.queue(1).expect("registered").clone();
    assert!(tx1.try_send(Arc::new(Message::from_bytes(b"one"))).is_ok());
    assert!(r0.try_recv().is_err());
    assert_eq!(payload(&r1.try_recv().ok().unwrap()), b"one".to_vec());
}
