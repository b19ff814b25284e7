use spot_relay::registry::{ConnectionManager, Delivery, SendOutcome};
use tokio::sync::mpsc::{channel, Receiver, Sender};

const G1: u128 = 0x1111;
const G2: u128 = 0x2222;
const A: u128 = 0xa;
const B: u128 = 0xb;
const C: u128 = 0xc;

fn queue() -> (Sender<String>, Receiver<String>) {
    channel::<String>(8)
}

fn drain(rx: &mut Receiver<String>) -> Vec<String> {
    let mut out = Vec::new();
    while let Ok(m) = rx.try_recv() {
        out.push(m);
    }
    out
}

#[test]
fn broadcast_reaches_other_members_only() {
    let mut m = ConnectionManager::new();
    let (ta, mut ra) = queue();
    let (tb, mut rb) = queue();
    let (tc, mut rc) = queue();
    assert!(m.add_client(A, "a".to_string(), G1, 1, ta).is_none());
    assert!(m.add_client(B, "b".to_string(), G1, 2, tb).is_none());
    assert!(m.add_client(C, "c".to_string(), G1, 3, tc).is_none());
    let d = m.broadcast_to_joint(G1, "payload".to_string(), A).deliveries;
    assert_eq!(
        d,
        vec![
            Delivery { user_id: B, connection: 2, outcome: SendOutcome::Queued },
            Delivery { user_id: C, connection: 3, outcome: SendOutcome::Queued },
        ]
    );
    assert_eq!(drain(&mut rb), vec!["payload".to_string()]);
    assert_eq!(drain(&mut rc), vec!["payload".to_string()]);
    assert!(drain(&mut ra).is_empty());
}

#[test]
fn broadcast_skips_other_groups() {
    let mut m = ConnectionManager::new();
    let (ta, _ra) = queue();
    let (tb, mut rb) = queue();
    m.add_client(A, "a".to_string(), G1, 1, ta);
    m.add_client(B, "b".to_string(), G2, 2, tb);
    let d = m.broadcast_to_joint(G1, "x".to_string(), A).deliveries;
    assert!(d.is_empty());
    assert!(drain(&mut rb).is_empty());
}

#[test]
fn deregistered_identity_is_never_reached() {
    let mut m = ConnectionManager::new();
    let (ta, _ra) = queue();
    let (tb, mut rb) = queue();
    let (tc, _rc) = queue();
    m.add_client(A, "a".to_string(), G1, 1, ta);
    m.add_client(B, "b".to_string(), G1, 2, tb);
    m.remove_client(&B);
    m.add_client(C, "c".to_string(), G1, 3, tc);
    m.remove_client(&B);
    let d = m.broadcast_to_joint(G1, "x".to_string(), A).deliveries;
    assert_eq!(d, vec![Delivery { user_id: C, connection: 3, outcome: SendOutcome::Queued }]);
    let d = m.broadcast_to_joint(G1, "y".to_string(), C).deliveries;
    assert_eq!(d, vec![Delivery { user_id: A, connection: 1, outcome: SendOutcome::Queued }]);
    assert!(drain(&mut rb).is_empty());
}

#[test]
fn remove_absent_identity_is_a_no_op() {
    let mut m = ConnectionManager::new();
    m.remove_client(&A);
    assert_eq!(m.get_joint_user_count(G1), 0);
    let (ta, _ra) = queue();
    m.add_client(A, "a".to_string(), G1, 1, ta);
    m.remove_client(&B);
    assert_eq!(m.get_joint_user_count(G1), 1);
}

#[test]
fn second_registration_supersedes_the_first() {
    let mut m = ConnectionManager::new();
    let (q1, mut r1) = queue();
    let (q2, mut r2) = queue();
    let (tb, _rb) = queue();
    assert!(m.add_client(A, "a".to_string(), G1, 1, q1).is_none());
    m.add_client(B, "b".to_string(), G1, 7, tb);
    let old = m.add_client(A, "a".to_string(), G1, 2, q2).expect("the first record comes back");
    assert_eq!(old.connection, 1);
    assert_eq!(old.user_id, A);
    drop(old);
    assert_eq!(m.get_joint_user_count(G1), 2);
    let d = m.broadcast_to_joint(G1, "hello".to_string(), B).deliveries;
    assert_eq!(d, vec![Delivery { user_id: A, connection: 2, outcome: SendOutcome::Queued }]);
    assert_eq!(drain(&mut r2), vec!["hello".to_string()]);
    assert!(drain(&mut r1).is_empty());
}

#[test]
fn superseded_connection_cannot_remove_its_successor() {
    let mut m = ConnectionManager::new();
    let (q1, _r1) = queue();
    let (q2, _r2) = queue();
    m.add_client(A, "a".to_string(), G1, 1, q1);
    m.add_client(A, "a".to_string(), G1, 2, q2);
    assert!(!m.remove_connection(A, 1));
    assert_eq!(m.get_joint_user_count(G1), 1);
    assert!(m.remove_connection(A, 2));
    assert_eq!(m.get_joint_user_count(G1), 0);
    assert!(!m.remove_connection(A, 2));
}

#[test]
fn broadcast_to_group_with_no_one_else_online() {
    let mut m = ConnectionManager::new();
    let (ta, mut ra) = queue();
    m.add_client(A, "a".to_string(), G1, 1, ta);
    let d = m.broadcast_to_joint(G1, "x".to_string(), A).deliveries;
    assert!(d.is_empty());
    assert!(drain(&mut ra).is_empty());
    let empty = ConnectionManager::default();
    assert!(empty.broadcast_to_joint(G2, "x".to_string(), A).deliveries.is_empty());
}

#[test]
fn count_follows_registrations_in_each_group() {
    let mut m = ConnectionManager::new();
    let (ta, _ra) = queue();
    let (tb, _rb) = queue();
    let (tc, _rc) = queue();
    m.add_client(A, "a".to_string(), G1, 1, ta);
    m.add_client(B, "b".to_string(), G2, 2, tb);
    m.add_client(C, "c".to_string(), G1, 3, tc);
    assert_eq!(m.get_joint_user_count(G1), 2);
    assert_eq!(m.get_joint_user_count(G2), 1);
    m.remove_client(&B);
    assert_eq!(m.get_joint_user_count(G1), 2);
    assert_eq!(m.get_joint_user_count(G2), 0);
    let (tb2, _rb2) = queue();
    m.add_client(B, "b".to_string(), G2, 4, tb2);
    assert_eq!(m.get_joint_user_count(G1), 2);
    let (ta2, _ra2) = queue();
    m.add_client(A, "a".to_string(), G2, 5, ta2);
    assert_eq!(m.get_joint_user_count(G1), 1);
    assert_eq!(m.get_joint_user_count(G2), 2);
}

#[test]
fn full_and_closed_queues_are_skipped() {
    let mut m = ConnectionManager::new();
    let (ta, _ra) = queue();
    let (tb, rb) = channel::<String>(1);
    let (tc, rc) = queue();
    let (td, mut rd) = queue();
    m.add_client(A, "a".to_string(), G1, 1, ta);
    m.add_client(B, "b".to_string(), G1, 2, tb);
    m.add_client(C, "c".to_string(), G1, 3, tc);
    m.add_client(0xd, "d".to_string(), G1, 4, td);
    drop(rc);
    let first = m.broadcast_to_joint(G1, "one".to_string(), A).deliveries;
    assert_eq!(first[0], Delivery { user_id: B, connection: 2, outcome: SendOutcome::Queued });
    assert_eq!(first[1], Delivery { user_id: C, connection: 3, outcome: SendOutcome::Closed });
    let second = m.broadcast_to_joint(G1, "two".to_string(), A).deliveries;
    assert_eq!(
        second,
        vec![
            Delivery { user_id: B, connection: 2, outcome: SendOutcome::Full },
            Delivery { user_id: C, connection: 3, outcome: SendOutcome::Closed },
            Delivery { user_id: 0xd, connection: 4, outcome: SendOutcome::Queued },
        ]
    );
    assert_eq!(drain(&mut rd), vec!["one".to_string(), "two".to_string()]);
    m.remove_closed(&second);
    assert_eq!(m.get_joint_user_count(G1), 3);
    let third = m.broadcast_to_joint(G1, "three".to_string(), A).deliveries;
    assert_eq!(third.iter().map(|d| d.user_id).collect::<Vec<_>>(), vec![B, 0xd]);
    drop(rb);
}

#[test]
fn pruning_spares_a_record_that_superseded_the_closed_one() {
    let mut m = ConnectionManager::new();
    let (q1, r1) = queue();
    m.add_client(A, "a".to_string(), G1, 1, q1);
    drop(r1);
    let d = m.broadcast_to_joint(G1, "x".to_string(), B).deliveries;
    assert_eq!(d, vec![Delivery { user_id: A, connection: 1, outcome: SendOutcome::Closed }]);
    let (q2, mut r2) = queue();
    m.add_client(A, "a".to_string(), G1, 2, q2);
    m.remove_closed(&d);
    assert_eq!(m.get_joint_user_count(G1), 1);
    m.broadcast_to_joint(G1, "y".to_string(), B).deliveries;
    assert_eq!(drain(&mut r2), vec!["y".to_string()]);
}
