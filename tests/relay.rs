use spot_relay::clock::Timestamp;
use spot_relay::registry::{ConnectionManager, Delivery, SendOutcome};
use spot_relay::relay::{
    message_for, on_frame, outgoing_payload, relay_stored, Admission, ChatMessage, InboundFrame,
    ReaderStep,
};
use tokio::sync::mpsc::channel;

const G1: u128 = 0x0123_4567_89ab_cdef_0011_2233_4455_6677;
const A: u128 = 0xa1a2a3a4_b1b2_c1c2_d1d2_d3d4d5d6d7d8;
const B: u128 = 0xb;

fn session(user_id: u128, name: &str) -> Admission {
    Admission { user_id, joint_id: G1, username: name.to_string() }
}

fn text(s: &str) -> InboundFrame {
    InboundFrame::Text(s.to_string())
}

#[test]
fn chat_frame_is_stored_then_sent_to_the_other_member() {
    let mut m = ConnectionManager::new();
    let (ta, mut ra) = channel::<String>(8);
    let (tb, mut rb) = channel::<String>(8);
    m.add_client(A, "alice".to_string(), G1, 1, ta);
    m.add_client(B, "bob".to_string(), G1, 2, tb);
    let s = session(A, "alice");
    let msg = match on_frame(&s, text("{\"content\":\"hi\"}")) {
        ReaderStep::Persist(msg) => msg,
        other => panic!("expected a message to store, got {:?}", other),
    };
    assert_eq!(msg.joint_id, G1);
    assert_eq!(msg.user_id, A);
    assert_eq!(msg.content, "hi");
    let d = relay_stored(&m, &s, &msg, true).deliveries;
    assert_eq!(d, vec![Delivery { user_id: B, connection: 2, outcome: SendOutcome::Queued }]);
    let frame = rb.try_recv().expect("bob receives the frame");
    assert!(rb.try_recv().is_err());
    let v: serde_json::Value = serde_json::from_str(&frame).unwrap();
    assert_eq!(v["content"], "hi");
    assert_eq!(v["senderId"], "a1a2a3a4-b1b2-c1c2-d1d2-d3d4d5d6d7d8");
    assert_eq!(v["groupId"], "01234567-89ab-cdef-0011-223344556677");
    assert_eq!(v["username"], "alice");
    assert_eq!(v["id"], uuid::Uuid::from_u128(msg.id).to_string());
    assert!(ra.try_recv().is_err());
}

#[test]
fn unstored_message_reaches_no_queue() {
    let mut m = ConnectionManager::new();
    let (tb, mut rb) = channel::<String>(8);
    m.add_client(B, "bob".to_string(), G1, 2, tb);
    let s = session(A, "alice");
    let msg = ChatMessage {
        id: 9,
        joint_id: G1,
        user_id: A,
        content: "lost".to_string(),
        created_at: Timestamp { seconds: 0, nanos: 0 },
    };
    assert!(relay_stored(&m, &s, &msg, false).deliveries.is_empty());
    assert!(rb.try_recv().is_err());
}

#[test]
fn close_frame_stops_the_reader() {
    assert!(matches!(on_frame(&session(A, "a"), InboundFrame::Close), ReaderStep::Stop));
}

#[test]
fn non_text_and_malformed_frames_are_ignored() {
    let s = session(A, "a");
    assert!(matches!(on_frame(&s, InboundFrame::Other), ReaderStep::Ignore));
    assert!(matches!(on_frame(&s, text("hi")), ReaderStep::Ignore));
    assert!(matches!(on_frame(&s, text("{\"content\":5}")), ReaderStep::Ignore));
    assert!(matches!(on_frame(&s, text("{\"body\":\"hi\"}")), ReaderStep::Ignore));
    assert!(matches!(on_frame(&s, text("")), ReaderStep::Ignore));
}

#[test]
fn extra_members_of_a_chat_frame_are_ignored() {
    let s = session(A, "a");
    match on_frame(&s, text("{\"content\":\"a \\\"b\\\"\",\"x\":1}")) {
        ReaderStep::Persist(m) => assert_eq!(m.content, "a \"b\""),
        other => panic!("expected a message to store, got {:?}", other),
    }
}

#[test]
fn message_for_uses_the_session_and_given_stamp() {
    let s = session(A, "a");
    let t = Timestamp { seconds: 1_700_000_000, nanos: 5 };
    let m = message_for(&s, Some("yo".to_string()), 42, t).unwrap();
    assert_eq!(m.id, 42);
    assert_eq!(m.joint_id, G1);
    assert_eq!(m.user_id, A);
    assert_eq!(m.content, "yo");
    assert_eq!(m.created_at, t);
    assert!(message_for(&s, None, 42, t).is_none());
}

#[test]
fn outgoing_frame_text_is_exact() {
    let msg = ChatMessage {
        id: 1,
        joint_id: G1,
        user_id: A,
        content: "line\n\"q\"\\".to_string(),
        created_at: Timestamp { seconds: 0, nanos: 0 },
    };
    let p = outgoing_payload(&msg, "al\u{1}ice").unwrap();
    assert_eq!(
        p,
        "{\"id\":\"00000000-0000-0000-0000-000000000001\",\
         \"groupId\":\"01234567-89ab-cdef-0011-223344556677\",\
         \"senderId\":\"a1a2a3a4-b1b2-c1c2-d1d2-d3d4d5d6d7d8\",\
         \"username\":\"al\\u0001ice\",\
         \"content\":\"line\\n\\\"q\\\"\\\\\",\
         \"createdAt\":\"1970-01-01T00:00:00+00:00\"}"
    );
}

#[test]
fn instant_out_of_range_sends_nothing() {
    let mut m = ConnectionManager::new();
    let (tb, mut rb) = channel::<String>(8);
    m.add_client(B, "bob".to_string(), G1, 2, tb);
    let msg = ChatMessage {
        id: 1,
        joint_id: G1,
        user_id: A,
        content: "x".to_string(),
        created_at: Timestamp { seconds: i64::MAX, nanos: 0 },
    };
    assert!(outgoing_payload(&msg, "a").is_none());
    assert!(relay_stored(&m, &session(A, "a"), &msg, true).deliveries.is_empty());
    assert!(rb.try_recv().is_err());
}
