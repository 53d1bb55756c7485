use std::hash::{Hash, Hasher};

use tetrax::channel::GossipPolicy;
use tetrax::dispatcher::{Action, Dispatcher, InboundMessage, NodeEvent, Phase};
use tetrax::message_id::{message_id, message_id_from_hash, payload_hash};
use tetrax::peers::{copy_bytes, same_bytes, ExplicitPeerSet};
use tetrax::store::{initial_store_text, storage_dir, store_file, RecordStore};
use tetrax::{SharesType, User};

fn record(domain: &str, shares: Vec<Vec<u8>>) -> User {
    User::new(domain.to_string(), shares)
}

fn delivery(source: &[u8], data: &[u8], authenticated: bool, decoded: Option<User>) -> NodeEvent {
    NodeEvent::Gossip(InboundMessage {
        source: source.to_vec(),
        data: data.to_vec(),
        authenticated,
        decoded,
    })
}

fn accepted(domain: &str, shares: Vec<Vec<u8>>) -> NodeEvent {
    let data = format!("{{\"domain\":\"{}\"}}", domain).into_bytes();
    delivery(b"peer-a", &data, true, Some(record(domain, shares)))
}

fn domains(d: &Dispatcher) -> Vec<String> {
    d.store().read_all().iter().map(|u| u.domain.clone()).collect()
}

#[test]
fn record_keeps_fields() {
    let u = record("alice.example", vec![vec![1, 2, 3], vec![], vec![255]]);
    assert_eq!(u.domain, "alice.example");
    assert_eq!(u.shares, vec![vec![1, 2, 3], vec![], vec![255]]);
    assert_eq!(u.share_count(), 3);
    assert_eq!(record("x", vec![]).share_count(), 0);
    assert!(matches!(SharesType::Complete, SharesType::Complete));
    assert!(matches!(SharesType::Partial, SharesType::Partial));
}

#[test]
fn identical_payloads_share_an_id() {
    let a = vec![1u8, 2, 3];
    let b = vec![1u8, 2, 3];
    assert_eq!(message_id(&a), message_id(&b));
    assert_eq!(payload_hash(&a), payload_hash(&b));
}

#[test]
fn changed_byte_changes_the_id() {
    let a = b"{\"domain\":\"alice.example\",\"shares\":[[1,2,3]]}".to_vec();
    let mut b = a.clone();
    b[40] = b'4';
    assert_ne!(message_id(&a), message_id(&b));
    assert_ne!(message_id(&vec![]), message_id(&vec![0u8]));
}

#[test]
fn hash_is_the_default_hasher_of_the_bytes() {
    let data = vec![9u8, 8, 7, 6];
    let mut s = std::collections::hash_map::DefaultHasher::new();
    data.hash(&mut s);
    let expected = s.finish();
    assert_eq!(payload_hash(&data), expected);
    assert_eq!(message_id(&data), expected.to_string());
}

#[test]
fn id_text_is_decimal() {
    assert_eq!(message_id_from_hash(0), "0");
    assert_eq!(message_id_from_hash(42), "42");
    assert_eq!(message_id_from_hash(1000), "1000");
    assert_eq!(message_id_from_hash(u64::MAX), "18446744073709551615");
}

#[test]
fn byte_helpers() {
    assert!(same_bytes(&vec![1, 2], &vec![1, 2]));
    assert!(!same_bytes(&vec![1, 2], &vec![1, 3]));
    assert!(!same_bytes(&vec![1, 2], &vec![1, 2, 3]));
    assert!(same_bytes(&vec![], &vec![]));
    assert_eq!(copy_bytes(&vec![5, 6, 7]), vec![5, 6, 7]);
    assert_eq!(copy_bytes(&vec![]), Vec::<u8>::new());
}

#[test]
fn peer_set_add_and_remove_are_idempotent() {
    let mut s = ExplicitPeerSet::new();
    assert_eq!(s.len(), 0);
    assert!(s.insert(b"p".to_vec()));
    assert!(!s.insert(b"p".to_vec()));
    assert_eq!(s.len(), 1);
    assert!(s.contains(&b"p".to_vec()));
    assert!(s.insert(b"q".to_vec()));
    assert_eq!(s.len(), 2);
    assert!(s.remove(&b"p".to_vec()));
    assert!(!s.contains(&b"p".to_vec()));
    assert!(!s.remove(&b"p".to_vec()));
    assert_eq!(s.len(), 1);
    assert!(s.contains(&b"q".to_vec()));
}

#[test]
fn store_appends_at_the_end() {
    let mut st = RecordStore::new();
    assert_eq!(st.len(), 0);
    st.append(record("a", vec![vec![1]]));
    st.append(record("b", vec![vec![2]]));
    st.append(record("c", vec![vec![3]]));
    let all = st.read_all();
    assert_eq!(all.len(), 3);
    assert_eq!(all[0].domain, "a");
    assert_eq!(all[1].domain, "b");
    assert_eq!(all[2].domain, "c");
    assert_eq!(all[2].shares, vec![vec![3]]);
}

#[test]
fn store_from_loaded_records() {
    let mut st = RecordStore::from_records(vec![record("old", vec![])]);
    st.append(record("new", vec![vec![7, 7]]));
    assert_eq!(st.len(), 2);
    assert_eq!(st.read_all()[0].domain, "old");
    assert_eq!(st.read_all()[1].domain, "new");
}

#[test]
fn storage_paths_follow_the_node_address() {
    assert_eq!(storage_dir("12D3KooWabc"), "/tmp/12D3KooWabc");
    assert_eq!(store_file("12D3KooWabc"), "/tmp/12D3KooWabc/shards.json");
    assert_eq!(initial_store_text(), "[]");
}

#[test]
fn policy_defaults() {
    let p = GossipPolicy::new("identity".to_string());
    assert_eq!(p.topic, "identity");
    assert_eq!(p.heartbeat_secs, 10);
    let q = p.with_heartbeat(3);
    assert_eq!(q.heartbeat_secs, 3);
    assert_eq!(q.topic, "identity");
}

#[test]
fn phases_follow_the_listener() {
    let mut d = Dispatcher::new(RecordStore::new());
    assert_eq!(d.phase(), Phase::Bootstrapping);
    let acts = d.handle(NodeEvent::ListenerBound("/ip4/0.0.0.0/tcp/4001".to_string()));
    assert_eq!(d.phase(), Phase::Listening);
    assert_eq!(acts.len(), 1);
    assert!(matches!(&acts[0], Action::ReportListening(a) if a == "/ip4/0.0.0.0/tcp/4001"));
    d.handle(NodeEvent::Discovered(vec![]));
    assert_eq!(d.phase(), Phase::Running);
    d.handle(NodeEvent::ListenerBound("/ip4/0.0.0.0/tcp/4002".to_string()));
    assert_eq!(d.phase(), Phase::Running);
}

#[test]
fn rediscovery_and_expiry_are_idempotent() {
    let p = b"peer-p".to_vec();
    let mut d = Dispatcher::new(RecordStore::new());
    let acts = d.handle(NodeEvent::Discovered(vec![p.clone()]));
    assert_eq!(acts.len(), 1);
    assert!(matches!(&acts[0], Action::AddExplicitPeer(x) if *x == p));
    assert_eq!(d.peers().len(), 1);
    d.handle(NodeEvent::Discovered(vec![p.clone()]));
    assert_eq!(d.peers().len(), 1);
    assert!(d.peers().contains(&p));
    let acts = d.handle(NodeEvent::Expired(vec![p.clone()]));
    assert!(matches!(&acts[0], Action::RemoveExplicitPeer(x) if *x == p));
    assert!(!d.peers().contains(&p));
    assert_eq!(d.peers().len(), 0);
    d.handle(NodeEvent::Expired(vec![p.clone()]));
    assert_eq!(d.peers().len(), 0);
}

#[test]
fn overlapping_discovery_lists() {
    let mut d = Dispatcher::new(RecordStore::new());
    let acts = d.handle(NodeEvent::Discovered(vec![b"a".to_vec(), b"b".to_vec(), b"a".to_vec()]));
    assert_eq!(acts.len(), 3);
    assert_eq!(d.peers().len(), 2);
    d.handle(NodeEvent::Expired(vec![b"b".to_vec(), b"c".to_vec()]));
    assert_eq!(d.peers().len(), 1);
    assert!(d.peers().contains(&b"a".to_vec()));
}

#[test]
fn unsigned_delivery_is_never_stored() {
    let mut d = Dispatcher::new(RecordStore::new());
    let acts = d.handle(delivery(b"mallory", b"{}", false, Some(record("evil", vec![vec![0]]))));
    assert_eq!(acts.len(), 1);
    assert!(matches!(acts[0], Action::DropUnauthenticated));
    assert_eq!(d.store().len(), 0);
    d.handle(delivery(b"mallory", b"", false, None));
    assert_eq!(d.store().len(), 0);
}

#[test]
fn undecodable_delivery_is_dropped() {
    let mut d = Dispatcher::new(RecordStore::new());
    let acts = d.handle(delivery(b"peer", b"not a record", true, None));
    assert_eq!(acts.len(), 1);
    assert!(matches!(acts[0], Action::DropUndecodable));
    assert_eq!(d.store().len(), 0);
}

#[test]
fn deliveries_are_appended_in_order() {
    let mut d = Dispatcher::new(RecordStore::new());
    for (name, b) in [("e1", 1u8), ("e2", 2), ("e3", 3)] {
        let acts = d.handle(accepted(name, vec![vec![b]]));
        assert_eq!(acts.len(), 1);
        assert!(matches!(acts[0], Action::PersistStore));
    }
    assert_eq!(domains(&d), vec!["e1", "e2", "e3"]);
    assert_eq!(d.store().read_all()[1].shares, vec![vec![2]]);
}

#[test]
fn shared_record_reaches_the_other_node_once() {
    let payload = b"{\"domain\":\"alice.example\",\"shares\":[[1,2,3]]}".to_vec();
    let policy = GossipPolicy::new("shares".to_string());
    assert_eq!(policy.topic, "shares");
    let mut node_b = Dispatcher::new(RecordStore::new());
    node_b.handle(NodeEvent::ListenerBound("/ip4/127.0.0.1/tcp/9000".to_string()));
    node_b.handle(NodeEvent::Discovered(vec![b"node-a".to_vec()]));
    let mut seen: Vec<String> = Vec::new();
    for _ in 0..2 {
        let id = message_id(&payload);
        if seen.contains(&id) {
            continue;
        }
        seen.push(id);
        node_b.handle(delivery(
            b"node-a",
            &payload,
            true,
            Some(record("alice.example", vec![vec![1, 2, 3]])),
        ));
    }
    assert_eq!(seen.len(), 1);
    let all = node_b.store().read_all();
    assert_eq!(all.len(), 1);
    assert_eq!(all[0].domain, "alice.example");
    assert_eq!(all[0].shares, vec![vec![1, 2, 3]]);
}
