use chat_relay::broadcast::{Broadcaster, Received, CHANNEL_CAPACITY};
use chat_relay::cors::CORS;
use chat_relay::history::{RoomHistory, RoomsMessagesCache, HISTORY_CAPACITY};
use chat_relay::message::Message;
use chat_relay::relay::{get_messages, post_message};
use chat_relay::session::{SessionStream, StreamStep};

fn msg(room: &str, content: &str) -> Message {
    Message::new(
        "alice".to_string(),
        room.to_string(),
        content.to_string(),
        "2024-01-01T00:00:00Z".to_string(),
    )
}

#[test]
fn eleventh_append_evicts_the_first() {
    let mut cache = RoomsMessagesCache::new();
    let all: Vec<Message> = (0..11).map(|i| msg("general", &format!("m{}", i))).collect();
    for m in &all {
        cache.set(m.clone());
    }
    let got = cache.get("general").unwrap();
    assert_eq!(got.len(), 10);
    assert_eq!(got, all[1..].to_vec());
    assert_eq!(got[0].content, "m1");
    assert_eq!(got[9].content, "m10");
}

#[test]
fn history_keeps_append_order_below_capacity() {
    let mut cache = RoomsMessagesCache::new();
    for i in 0..3 {
        cache.set(msg("r", &format!("m{}", i)));
    }
    let got = cache.get("r").unwrap();
    let contents: Vec<&str> = got.iter().map(|m| m.content.as_str()).collect();
    assert_eq!(contents, vec!["m0", "m1", "m2"]);
}

#[test]
fn history_capacity_is_ten() {
    assert_eq!(HISTORY_CAPACITY, 10);
    assert_eq!(CHANNEL_CAPACITY, 1024);
}

#[test]
fn many_appends_keep_the_last_ten() {
    let mut cache = RoomsMessagesCache::new();
    for i in 0..25 {
        cache.set(msg("r", &format!("m{}", i)));
    }
    let got = cache.get("r").unwrap();
    let contents: Vec<String> = got.iter().map(|m| m.content.clone()).collect();
    let want: Vec<String> = (15..25).map(|i| format!("m{}", i)).collect();
    assert_eq!(contents, want);
}

#[test]
fn unknown_room_reads_as_nothing() {
    let mut cache = RoomsMessagesCache::new();
    assert_eq!(cache.get("nowhere"), None);
    cache.set(msg("elsewhere", "x"));
    assert_eq!(cache.get("nowhere"), None);
    let r = get_messages("nowhere".to_string(), &cache);
    assert_eq!(r.name, "nowhere");
    assert!(r.messages.is_empty());
}

#[test]
fn rooms_do_not_mix() {
    let mut cache = RoomsMessagesCache::new();
    cache.set(msg("a", "a0"));
    cache.set(msg("b", "b0"));
    cache.set(msg("a", "a1"));
    let a = cache.get("a").unwrap();
    let b = cache.get("b").unwrap();
    assert_eq!(a, vec![msg("a", "a0"), msg("a", "a1")]);
    assert_eq!(b, vec![msg("b", "b0")]);
}

#[test]
fn room_names_are_exact() {
    let mut cache = RoomsMessagesCache::new();
    cache.set(msg("General", "x"));
    assert_eq!(cache.get("general"), None);
    assert_eq!(cache.get("General "), None);
    assert_eq!(cache.get("General").unwrap().len(), 1);
}

#[test]
fn room_history_evicts_oldest() {
    let mut h = RoomHistory::new(msg("r", "m0"));
    assert_eq!(h.room(), "r");
    for i in 1..=10 {
        h.push(msg("r", &format!("m{}", i)));
    }
    let s = h.snapshot();
    assert_eq!(s.len(), 10);
    assert_eq!(s[0].content, "m1");
    assert_eq!(s[9].content, "m10");
}

#[test]
fn subscriber_receives_later_publish_and_later_cursor_does_not() {
    let mut b = Broadcaster::new(CHANNEL_CAPACITY);
    let mut first = b.subscribe();
    let m = msg("a", "hello");
    b.publish(m.clone());
    let mut second = b.subscribe();
    assert_eq!(b.receive(&mut first), Received::Message(m));
    assert_eq!(b.receive(&mut first), Received::Empty);
    assert_eq!(b.receive(&mut second), Received::Empty);
    b.publish(msg("a", "next"));
    assert_eq!(b.receive(&mut second), Received::Message(msg("a", "next")));
}

#[test]
fn every_subscriber_gets_all_in_order() {
    let mut b = Broadcaster::new(8);
    let mut c1 = b.subscribe();
    let mut c2 = b.subscribe();
    let ms: Vec<Message> = (0..5).map(|i| msg(if i % 2 == 0 { "x" } else { "y" }, &format!("m{}", i))).collect();
    for m in &ms {
        b.publish(m.clone());
    }
    for c in [&mut c1, &mut c2] {
        for m in &ms {
            assert_eq!(b.receive(c), Received::Message(m.clone()));
        }
        assert_eq!(b.receive(c), Received::Empty);
    }
}

#[test]
fn publish_without_subscribers_still_recorded() {
    let mut b = Broadcaster::new(CHANNEL_CAPACITY);
    let mut cache = RoomsMessagesCache::new();
    assert_eq!(b.receiver_count(), 0);
    post_message(msg("quiet", "alone"), &mut b, &mut cache);
    assert_eq!(b.sent(), 0);
    let r = get_messages("quiet".to_string(), &cache);
    assert_eq!(r.messages, vec![msg("quiet", "alone")]);
    let mut c = b.subscribe();
    assert_eq!(b.receive(&mut c), Received::Empty);
}

#[test]
fn post_message_records_and_broadcasts() {
    let mut b = Broadcaster::new(CHANNEL_CAPACITY);
    let mut cache = RoomsMessagesCache::new();
    let mut c = b.subscribe();
    post_message(msg("a", "one"), &mut b, &mut cache);
    assert_eq!(b.sent(), 1);
    assert_eq!(cache.get("a").unwrap(), vec![msg("a", "one")]);
    assert_eq!(b.receive(&mut c), Received::Message(msg("a", "one")));
}

#[test]
fn lagging_cursor_skips_to_oldest_held() {
    let mut b = Broadcaster::new(2);
    let mut c = b.subscribe();
    for i in 0..5 {
        b.publish(msg("r", &format!("m{}", i)));
    }
    assert_eq!(b.receive(&mut c), Received::Lagged);
    assert_eq!(b.receive(&mut c), Received::Message(msg("r", "m3")));
    assert_eq!(b.receive(&mut c), Received::Message(msg("r", "m4")));
    assert_eq!(b.receive(&mut c), Received::Empty);
}

#[test]
fn ring_wraps_around_many_times() {
    let mut b = Broadcaster::new(3);
    let mut c = b.subscribe();
    for i in 0..20 {
        b.publish(msg("r", &format!("m{}", i)));
        assert_eq!(b.receive(&mut c), Received::Message(msg("r", &format!("m{}", i))));
    }
}

#[test]
fn closed_channel_drains_then_reports_closed() {
    let mut b = Broadcaster::new(4);
    let mut c = b.subscribe();
    b.publish(msg("r", "last"));
    b.close();
    assert!(b.is_closed());
    b.publish(msg("r", "dropped"));
    assert_eq!(b.receive(&mut c), Received::Message(msg("r", "last")));
    assert_eq!(b.receive(&mut c), Received::Closed);
    assert_eq!(b.receive(&mut c), Received::Closed);
}

#[test]
fn unsubscribe_counts_down() {
    let mut b = Broadcaster::new(4);
    let c1 = b.subscribe();
    let c2 = b.subscribe();
    assert_eq!(b.receiver_count(), 2);
    b.unsubscribe(c1);
    assert_eq!(b.receiver_count(), 1);
    b.unsubscribe(c2);
    assert_eq!(b.receiver_count(), 0);
    b.publish(msg("r", "nobody"));
    assert_eq!(b.sent(), 0);
}

#[test]
fn stream_yields_then_waits() {
    let mut b = Broadcaster::new(4);
    let mut s = SessionStream::open(&mut b);
    assert_eq!(s.poll(&b, false), StreamStep::Wait);
    b.publish(msg("r", "m"));
    assert_eq!(s.poll(&b, false), StreamStep::Yield(msg("r", "m")));
    assert_eq!(s.poll(&b, false), StreamStep::Wait);
    assert!(!s.is_ended());
}

#[test]
fn cancelled_stream_stays_ended_and_others_continue() {
    let mut b = Broadcaster::new(4);
    let mut s1 = SessionStream::open(&mut b);
    let mut s2 = SessionStream::open(&mut b);
    assert_eq!(s1.poll(&b, true), StreamStep::End);
    assert!(s1.is_ended());
    b.publish(msg("r", "after"));
    assert_eq!(s1.poll(&b, false), StreamStep::End);
    assert_eq!(s2.poll(&b, false), StreamStep::Yield(msg("r", "after")));
    s1.release(&mut b);
    assert_eq!(b.receiver_count(), 1);
    b.publish(msg("r", "again"));
    assert_eq!(s2.poll(&b, false), StreamStep::Yield(msg("r", "again")));
}

#[test]
fn stream_hides_lag_and_resumes() {
    let mut b = Broadcaster::new(2);
    let mut s = SessionStream::open(&mut b);
    for i in 0..5 {
        b.publish(msg("r", &format!("m{}", i)));
    }
    assert_eq!(s.poll(&b, false), StreamStep::Yield(msg("r", "m3")));
    assert_eq!(s.poll(&b, false), StreamStep::Yield(msg("r", "m4")));
    assert_eq!(s.poll(&b, false), StreamStep::Wait);
}

#[test]
fn stream_ends_on_shutdown() {
    let mut b = Broadcaster::new(4);
    let mut s = SessionStream::open(&mut b);
    b.publish(msg("r", "m"));
    b.close();
    assert_eq!(s.poll(&b, false), StreamStep::Yield(msg("r", "m")));
    assert_eq!(s.poll(&b, false), StreamStep::End);
    assert!(s.is_ended());
    assert_eq!(s.poll(&b, false), StreamStep::End);
}

#[test]
fn cors_headers_and_name() {
    let cors = CORS;
    assert_eq!(cors.name(), "Add CORS headers to responses");
    let h = cors.headers();
    let pairs: Vec<(&str, &str)> = h.iter().map(|(k, v)| (k.as_str(), v.as_str())).collect();
    assert_eq!(
        pairs,
        vec![
            ("Access-Control-Allow-Origin", "*"),
            ("Access-Control-Allow-Methods", "POST, GET, PATCH, OPTIONS"),
            ("Access-Control-Allow-Headers", "*"),
            ("Access-Control-Allow-Credentials", "true"),
        ]
    );
}
