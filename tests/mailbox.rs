use eck::codec::{decode_bytes, encode_bytes};
use eck::handlers::{cleanup_expired, pull, push};
use eck::mailbox::{Mailbox, DEFAULT_TTL_SECONDS, MAX_PAYLOAD_SIZE};
use eck::models::{PushRequest, RelayError};

fn request(mesh: &str, target: &str, sender: &str, payload: Vec<u8>, ttl: Option<u64>) -> PushRequest {
    PushRequest {
        mesh_id: mesh.to_string(),
        target_instance_id: target.to_string(),
        sender_instance_id: sender.to_string(),
        payload_cipher: payload,
        nonce: b"n".to_vec(),
        ttl_seconds: ttl,
    }
}

#[test]
fn push_then_pull_delivers_once() {
    let mut mb = Mailbox::new();
    let payload = decode_bytes(&"aGk=".to_string()).unwrap();
    let nonce = decode_bytes(&"bg==".to_string()).unwrap();
    let mut req = request("m1", "dev2", "dev1", payload, Some(60));
    req.nonce = nonce;
    let resp = push(&mut mb, req).unwrap();
    assert!(resp.ok);
    let first = pull(&mut mb, "m1".to_string(), "dev2".to_string());
    assert_eq!(first.mesh_id, "m1");
    assert_eq!(first.packets.len(), 1);
    assert_eq!(first.packets[0].id, resp.packet_id);
    assert_eq!(first.packets[0].payload_cipher, b"hi".to_vec());
    assert_eq!(first.packets[0].nonce, b"n".to_vec());
    assert_eq!(first.packets[0].sender_instance_id, "dev1");
    assert_eq!(encode_bytes(&first.packets[0].payload_cipher), "aGk=");
    let second = pull(&mut mb, "m1".to_string(), "dev2".to_string());
    assert!(second.packets.is_empty());
}

#[test]
fn pushes_get_distinct_ids() {
    let mut mb = Mailbox::new();
    let a = push(&mut mb, request("m1", "dev2", "dev1", vec![1], None)).unwrap();
    let b = push(&mut mb, request("m1", "dev2", "dev1", vec![2], None)).unwrap();
    assert_ne!(a.packet_id, b.packet_id);
    assert_eq!(mb.len(), 2);
}

#[test]
fn expired_packet_is_swept_and_not_pulled() {
    let mut mb = Mailbox::new();
    assert_eq!(mb.push_at(7, 1000, request("m1", "dev2", "dev1", vec![1], Some(1))), Ok(7));
    // two seconds later
    assert_eq!(mb.expire_at(1002), 1);
    assert!(mb.pull_at(&"m1".to_string(), &"dev2".to_string(), 1002).is_empty());
    assert_eq!(mb.len(), 0);
}

#[test]
fn expired_packet_is_not_pulled_before_sweep() {
    let mut mb = Mailbox::new();
    mb.push_at(7, 1000, request("m1", "dev2", "dev1", vec![1], Some(1))).unwrap();
    assert!(mb.pull_at(&"m1".to_string(), &"dev2".to_string(), 1002).is_empty());
    // the expired packet stays until the sweep takes it
    assert_eq!(mb.len(), 1);
    assert_eq!(mb.expire_at(1002), 1);
}

#[test]
fn packet_at_its_expiry_instant() {
    let mut mb = Mailbox::new();
    mb.push_at(7, 1000, request("m1", "dev2", "dev1", vec![1], Some(5))).unwrap();
    // not swept at the instant itself, not delivered either
    assert_eq!(mb.expire_at(1005), 0);
    assert!(mb.pull_at(&"m1".to_string(), &"dev2".to_string(), 1005).is_empty());
    assert_eq!(mb.expire_at(1006), 1);
}

#[test]
fn expire_on_fresh_mailbox_is_zero_and_idempotent() {
    let mut mb = Mailbox::new();
    assert_eq!(mb.expire_at(5), 0);
    mb.push_at(1, 0, request("m1", "a", "b", vec![], Some(10))).unwrap();
    assert_eq!(mb.expire_at(20), 1);
    assert_eq!(mb.expire_at(20), 0);
    assert_eq!(cleanup_expired(&mut mb), 0);
}

#[test]
fn oversized_payload_is_refused() {
    let mut mb = Mailbox::new();
    let big = vec![0u8; MAX_PAYLOAD_SIZE + 1];
    assert_eq!(big.len(), 1_048_577);
    let r = push(&mut mb, request("m1", "dev2", "dev1", big, None));
    assert!(matches!(r, Err(RelayError::PayloadTooLarge)));
    assert_eq!(mb.len(), 0);
    let r = mb.push_at(3, 0, request("m1", "dev2", "dev1", vec![0u8; MAX_PAYLOAD_SIZE + 1], None));
    assert_eq!(r, Err(RelayError::PayloadTooLarge));
    assert_eq!(mb.len(), 0);
}

#[test]
fn payload_of_exactly_the_bound_is_accepted() {
    let mut mb = Mailbox::new();
    let r = mb.push_at(3, 0, request("m1", "dev2", "dev1", vec![0u8; MAX_PAYLOAD_SIZE], None));
    assert_eq!(r, Ok(3));
    assert_eq!(mb.len(), 1);
}

#[test]
fn taken_id_is_a_conflict() {
    let mut mb = Mailbox::new();
    mb.push_at(9, 0, request("m1", "dev2", "dev1", vec![1], None)).unwrap();
    assert_eq!(mb.push_at(9, 1, request("m1", "dev3", "dev1", vec![2], None)), Err(RelayError::IdConflict));
    assert_eq!(mb.len(), 1);
    assert!(mb.contains_id(9));
    assert!(!mb.contains_id(10));
}

#[test]
fn default_lifetime_is_an_hour() {
    assert_eq!(DEFAULT_TTL_SECONDS, 3600);
    let mut mb = Mailbox::new();
    mb.push_at(1, 100, request("m1", "t", "s", vec![1], None)).unwrap();
    let got = mb.pull_at(&"m1".to_string(), &"t".to_string(), 101);
    assert_eq!(got[0].created_at, 100);
    assert_eq!(got[0].ttl, 3700);
}

#[test]
fn huge_lifetime_saturates() {
    let mut mb = Mailbox::new();
    mb.push_at(1, 100, request("m1", "t", "s", vec![1], Some(u64::MAX))).unwrap();
    let got = mb.pull_at(&"m1".to_string(), &"t".to_string(), 101);
    assert_eq!(got[0].ttl, i64::MAX);
}

#[test]
fn pull_returns_oldest_first() {
    let mut mb = Mailbox::new();
    mb.push_at(1, 10, request("m1", "t", "s", vec![1], None)).unwrap();
    mb.push_at(2, 10, request("m1", "t", "s", vec![2], None)).unwrap();
    mb.push_at(3, 5, request("m1", "t", "s", vec![3], None)).unwrap();
    mb.push_at(4, 20, request("m1", "t", "s", vec![4], None)).unwrap();
    let got = mb.pull_at(&"m1".to_string(), &"t".to_string(), 30);
    let ids: Vec<u128> = got.iter().map(|p| p.id).collect();
    assert_eq!(ids, vec![3, 1, 2, 4]);
}

#[test]
fn fifo_two_pushes_same_target() {
    let mut mb = Mailbox::new();
    mb.push_at(11, 50, request("m1", "dev2", "dev1", vec![1], None)).unwrap();
    mb.push_at(12, 51, request("m1", "dev2", "dev1", vec![2], None)).unwrap();
    let got = mb.pull_at(&"m1".to_string(), &"dev2".to_string(), 52);
    let ids: Vec<u128> = got.iter().map(|p| p.id).collect();
    assert_eq!(ids, vec![11, 12]);
}

#[test]
fn second_pull_gets_nothing_already_delivered() {
    let mut mb = Mailbox::new();
    mb.push_at(1, 0, request("m1", "t", "s", vec![1], None)).unwrap();
    mb.push_at(2, 0, request("m1", "u", "s", vec![2], None)).unwrap();
    let a = mb.pull_at(&"m1".to_string(), &"t".to_string(), 1);
    mb.push_at(3, 2, request("m1", "t", "s", vec![3], None)).unwrap();
    let b = mb.pull_at(&"m1".to_string(), &"t".to_string(), 3);
    assert_eq!(a.len(), 1);
    assert_eq!(a[0].id, 1);
    assert_eq!(b.len(), 1);
    assert_eq!(b[0].id, 3);
    // the packet for the other target is untouched
    assert_eq!(mb.len(), 1);
}

#[test]
fn pull_is_scoped_to_mesh() {
    let mut mb = Mailbox::new();
    mb.push_at(1, 0, request("A", "dev", "s", vec![1], None)).unwrap();
    mb.push_at(2, 0, request("B", "dev", "s", vec![2], None)).unwrap();
    let a = mb.pull_at(&"A".to_string(), &"dev".to_string(), 1);
    assert_eq!(a.len(), 1);
    assert_eq!(a[0].id, 1);
    assert_eq!(a[0].mesh_id, "A");
    let b = mb.pull_at(&"B".to_string(), &"dev".to_string(), 1);
    assert_eq!(b.len(), 1);
    assert_eq!(b[0].id, 2);
}

#[test]
fn base64_round_trip_and_errors() {
    assert_eq!(encode_bytes(&b"hi".to_vec()), "aGk=");
    assert_eq!(encode_bytes(&Vec::new()), "");
    assert_eq!(encode_bytes(&b"foobar".to_vec()), "Zm9vYmFy");
    assert_eq!(decode_bytes(&"Zm9vYmFy".to_string()).unwrap(), b"foobar".to_vec());
    assert_eq!(decode_bytes(&"not base64!".to_string()), Err(RelayError::BadEncoding));
}

#[test]
fn latest_time_only_moves_forward() {
    let mut mb = Mailbox::new();
    assert_eq!(mb.latest_time(), i64::MIN);
    mb.push_at(1, 100, request("m1", "t", "s", vec![1], None)).unwrap();
    assert_eq!(mb.latest_time(), 100);
    mb.pull_at(&"m1".to_string(), &"other".to_string(), 50);
    assert_eq!(mb.latest_time(), 100);
    mb.expire_at(150);
    assert_eq!(mb.latest_time(), 150);
    // a refused push leaves it alone
    assert_eq!(mb.push_at(1, 900, request("m1", "t", "s", vec![1], None)), Err(RelayError::IdConflict));
    assert_eq!(mb.latest_time(), 150);
}

#[test]
fn pull_never_acts_before_an_earlier_operation() {
    let far: i64 = 4_000_000_000;
    let mut mb = Mailbox::new();
    mb.push_at(1, far, request("m1", "dev2", "dev1", vec![1], Some(50))).unwrap();
    // another target's pull moves the mailbox past the packet's expiry
    mb.pull_at(&"m1".to_string(), &"elsewhere".to_string(), far + 100);
    // the clock reads earlier than that, but the packet stays undelivered
    let r = pull(&mut mb, "m1".to_string(), "dev2".to_string());
    assert!(r.packets.is_empty());
    assert_eq!(mb.latest_time(), far + 100);
    assert_eq!(cleanup_expired(&mut mb), 1);
}

#[test]
fn push_after_later_operation_appends() {
    let far: i64 = 4_000_000_000;
    let mut mb = Mailbox::new();
    mb.push_at(1, far, request("m1", "dev2", "dev1", vec![1], None)).unwrap();
    let b = push(&mut mb, request("m1", "dev2", "dev1", vec![2], None)).unwrap();
    let got = mb.pull_at(&"m1".to_string(), &"dev2".to_string(), far + 1);
    assert_eq!(got.len(), 2);
    assert_eq!(got[0].id, 1);
    assert_eq!(got[1].id, b.packet_id);
    assert_eq!(got[1].created_at, far);
}
