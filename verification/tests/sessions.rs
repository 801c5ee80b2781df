use parachain_validation::collation_work::CollationWork;
use parachain_validation::ed25519::Pair;
use parachain_validation::instances::LiveInstances;
use parachain_validation::primitives::{
    CandidateReceipt, Chain, Collation, DutyRoster, Message, OutgoingMessage, ParachainExtrinsic,
    PoVBlock,
};
use parachain_validation::sessions::{
    look_up, AwaitingAuthorities, AwaitingRoster, Lookup, SessionRequest,
};
use parachain_validation::{Error, Incoming, MessagesFrom, Outgoing};

/// The Blake2b-256 digest of "abc".
const ABC_DIGEST: [u8; 32] = [
    0xbd, 0xdd, 0x81, 0x3c, 0x63, 0x42, 0x39, 0x72, 0x31, 0x71, 0xef, 0x3f, 0xee, 0x98, 0x57, 0x9b,
    0x94, 0x96, 0x4e, 0x3b, 0xb1, 0xcb, 0x3e, 0x42, 0x72, 0x62, 0xc8, 0xc0, 0x68, 0xd5, 0x23, 0x19,
];

fn request() -> SessionRequest {
    SessionRequest {
        parent_hash: [1; 32],
        grandparent_hash: [0; 32],
        sign_with: Pair::from_seed([3; 32]),
        local_id: [7; 32],
        max_block_data_size: Some(1024),
    }
}

fn missing<T>(live: &LiveInstances<T>) -> AwaitingAuthorities {
    match look_up(live, request()) {
        Lookup::Missing(stage) => stage,
        Lookup::Live(_) => panic!("a session is live"),
    }
}

fn message(byte: u8) -> OutgoingMessage {
    OutgoingMessage { target: byte as u32, data: vec![byte] }
}

fn extrinsic(byte: u8) -> ParachainExtrinsic {
    ParachainExtrinsic { outgoing_messages: vec![message(byte)] }
}

fn receipt(parachain_index: u32, encoded: &[u8]) -> CandidateReceipt {
    CandidateReceipt { parachain_index, encoded: encoded.to_vec() }
}

fn awaiting_roster(authorities: Vec<[u8; 32]>) -> AwaitingRoster {
    let live: LiveInstances<u8> = LiveInstances::new();
    let stage = missing(&live).authorities(Ok(authorities)).ok().unwrap();
    stage.parent_candidates(Ok(None)).extrinsics(None)
}

#[test]
fn messages_keep_their_origin() {
    let from = MessagesFrom::from_messages(5, vec![message(1), message(2)]);
    assert_eq!(from.from, 5);
    assert_eq!(from.messages.outgoing_messages, vec![message(1), message(2)]);
    let copy = from.messages.clone();
    assert_eq!(copy, from.messages);
    let outgoing: Outgoing = vec![from];
    assert_eq!(outgoing.len(), 1);
    let incoming: Incoming = vec![(5, vec![Message(vec![1])])];
    assert_eq!(incoming[0].1[0], Message(vec![1]));
}

#[test]
fn candidate_hash_is_the_digest_of_the_encoding() {
    assert_eq!(receipt(3, b"abc").hash(), ABC_DIGEST);
}

#[test]
fn instances_are_found_by_parent() {
    let mut live: LiveInstances<u8> = LiveInstances::new();
    assert_eq!(live.get(&[1; 32]), None);
    live.insert([1; 32], 10);
    live.insert([2; 32], 20);
    assert_eq!(live.get(&[1; 32]), Some(&10));
    assert_eq!(live.get(&[2; 32]), Some(&20));
    live.insert([1; 32], 11);
    assert_eq!(live.get(&[1; 32]), Some(&11));
    assert_eq!(live.get(&[2; 32]), Some(&20));
    assert_eq!(live.get(&[3; 32]), None);
}

#[test]
fn retain_drops_what_the_predicate_refuses() {
    let mut live: LiveInstances<u8> = LiveInstances::new();
    for i in 0..6u8 {
        live.insert([i; 32], i);
    }
    let kept = [[1u8; 32], [4; 32], [9; 32]];
    live.retain(|hash| kept.contains(hash));
    for i in 0..10u8 {
        let expected = if i == 1 || i == 4 { Some(i) } else { None };
        assert_eq!(live.get(&[i; 32]).copied(), expected);
    }
    live.retain(|_| false);
    assert_eq!(live.get(&[1; 32]), None);
}

#[test]
fn live_session_is_returned_and_never_started_again() {
    let mut live: LiveInstances<u8> = LiveInstances::new();
    let stage = missing(&live).authorities(Ok(vec![[7; 32]])).ok().unwrap();
    let stage = stage.parent_candidates(Ok(None)).extrinsics(None);
    let roster = DutyRoster { validator_duty: vec![Chain::Parachain(4)] };
    let start = stage.duty_roster(Ok(roster)).ok().unwrap();
    let start = start.active_parachains(Ok(vec![4])).ok().unwrap();
    assert_eq!(
        start.collation_work(),
        Some(CollationWork {
            relay_parent: [1; 32],
            validation_para: 4,
            max_block_data_size: Some(1024),
        })
    );
    assert!(start.groups[&4].validity_guarantors().contains(&[7; 32]));
    start.record(&mut live, 33);
    match look_up(&live, request()) {
        Lookup::Live(tracker) => assert_eq!(*tracker, 33),
        Lookup::Missing(_) => panic!("the session was recorded"),
    }
}

#[test]
fn relay_duty_launches_no_work() {
    let roster = DutyRoster { validator_duty: vec![Chain::Relay] };
    let start = awaiting_roster(vec![[7; 32]]).duty_roster(Ok(roster)).ok().unwrap();
    let start = start.active_parachains(Ok(vec![])).ok().unwrap();
    assert_eq!(start.collation_work(), None);
    assert!(start.groups.is_empty());
    assert_eq!(start.request.max_block_data_size, Some(1024));
}

#[test]
fn failing_answers_end_the_attempt() {
    let live: LiveInstances<u8> = LiveInstances::new();
    let failed = missing(&live).authorities(Err("no authorities".to_string()));
    assert_eq!(failed.err(), Some(Error::Client("no authorities".to_string())));

    let failed = awaiting_roster(vec![[7; 32]]).duty_roster(Err("no roster".to_string()));
    assert_eq!(failed.err(), Some(Error::Client("no roster".to_string())));

    let short = DutyRoster { validator_duty: vec![] };
    let failed = awaiting_roster(vec![[7; 32]]).duty_roster(Ok(short));
    assert_eq!(
        failed.err(),
        Some(Error::InvalidDutyRosterLength { expected: 1, got: 0 })
    );

    let other = DutyRoster { validator_duty: vec![Chain::Relay] };
    let failed = awaiting_roster(vec![[8; 32]]).duty_roster(Ok(other));
    assert_eq!(failed.err(), Some(Error::NotValidator([7; 32])));

    let roster = DutyRoster { validator_duty: vec![Chain::Relay] };
    let stage = awaiting_roster(vec![[7; 32]]).duty_roster(Ok(roster)).ok().unwrap();
    let failed = stage.active_parachains(Err("no parachains".to_string()));
    assert_eq!(failed.err(), Some(Error::Client("no parachains".to_string())));
}

#[test]
fn outgoing_messages_are_those_that_the_grandparent_session_holds() {
    let mut live: LiveInstances<u8> = LiveInstances::new();
    live.insert([0; 32], 99);
    let stage = missing(&live).authorities(Ok(vec![])).ok().unwrap();
    let candidates = vec![receipt(1, b"abc"), receipt(2, b""), receipt(3, b"abc")];
    let stage = stage.parent_candidates(Ok(Some(candidates)));
    let (tracker, hashes) = stage.extrinsic_queries(&live).unwrap();
    assert_eq!(*tracker, 99);
    assert_eq!(hashes.len(), 3);
    assert_eq!(hashes[0], ABC_DIGEST);
    assert_ne!(hashes[1], ABC_DIGEST);
    assert_eq!(hashes[2], ABC_DIGEST);
    let next = stage.extrinsics(Some(vec![Some(extrinsic(1)), None, Some(extrinsic(3))]));
    assert_eq!(
        next.outgoing,
        vec![
            MessagesFrom { from: 1, messages: extrinsic(1) },
            MessagesFrom { from: 3, messages: extrinsic(3) },
        ]
    );
}

#[test]
fn unknown_candidates_are_no_error() {
    let live: LiveInstances<u8> = LiveInstances::new();
    let stage = missing(&live).authorities(Ok(vec![])).ok().unwrap();
    let stage = stage.parent_candidates(Err("pruned".to_string()));
    assert!(stage.candidates.is_empty());
    assert!(stage.extrinsic_queries(&live).is_none());
    assert!(stage.extrinsics(None).outgoing.is_empty());
}

fn collation_work() -> CollationWork {
    CollationWork { relay_parent: [1; 32], validation_para: 4, max_block_data_size: None }
}

fn collation() -> Collation {
    Collation { receipt: receipt(6, b"abc"), pov: PoVBlock { block_data: vec![1, 2] } }
}

#[test]
fn collation_is_handed_on_once_its_data_is_stored() {
    let stage = collation_work().router_built(Ok(())).unwrap();
    let fetched = Ok((collation(), extrinsic(2)));
    let (data, stage) = stage.collation_fetched(fetched).unwrap();
    assert_eq!(data.relay_parent, [1; 32]);
    assert_eq!(data.parachain_id, 6);
    assert_eq!(data.candidate_hash, ABC_DIGEST);
    assert_eq!(data.block_data, vec![1, 2]);
    assert_eq!(data.extrinsic, Some(extrinsic(2)));
    let (local, ex) = stage.stored(Ok(())).unwrap();
    assert_eq!(local, collation());
    assert_eq!(ex, extrinsic(2));
}

#[test]
fn failed_collation_work_hands_nothing_on() {
    assert!(collation_work().router_built(Err("no router".to_string())).is_none());
    let stage = collation_work().router_built(Ok(())).unwrap();
    assert!(stage.collation_fetched(Err("no collation".to_string())).is_none());
    let stage = collation_work().router_built(Ok(())).unwrap();
    let (_, stage) = stage.collation_fetched(Ok((collation(), extrinsic(2)))).unwrap();
    assert!(stage.stored(Err("disk full".to_string())).is_none());
}

#[test]
fn request_names_the_holder_of_its_key() {
    let key = Pair::from_seed([3; 32]);
    let request = SessionRequest::new([1; 32], [2; 32], key, None);
    assert_eq!(request.parent_hash, [1; 32]);
    assert_eq!(request.grandparent_hash, [2; 32]);
    assert_eq!(request.sign_with.seed, [3; 32]);
    assert_eq!(request.local_id, key.public());
    assert_ne!(request.local_id, [3; 32]);
    assert_eq!(request.max_block_data_size, None);
}

#[test]
fn copies_of_collations_are_equal() {
    assert_eq!(collation().clone(), collation());
}

/// One call for the session of a parent: the tracker found, or `fresh` if one is started, or
/// nothing if the roster cannot be fetched.
fn call(live: &mut LiveInstances<u8>, parent: u8, roster_known: bool, fresh: u8) -> Option<u8> {
    let request = SessionRequest { parent_hash: [parent; 32], ..request() };
    let stage = match look_up(live, request) {
        Lookup::Live(tracker) => return Some(*tracker),
        Lookup::Missing(stage) => stage,
    };
    let stage = stage.authorities(Ok(vec![[7; 32]])).ok().unwrap();
    let stage = stage.parent_candidates(Err("pruned".to_string())).extrinsics(None);
    let roster = if roster_known {
        Ok(DutyRoster { validator_duty: vec![Chain::Relay] })
    } else {
        Err("no roster".to_string())
    };
    let start = stage.duty_roster(roster).ok()?.active_parachains(Ok(vec![])).ok()?;
    start.record(live, fresh);
    Some(fresh)
}

#[test]
fn many_calls_give_one_session_for_each_parent() {
    let mut live: LiveInstances<u8> = LiveInstances::new();
    assert_eq!(call(&mut live, 1, false, 10), None);
    assert_eq!(call(&mut live, 1, true, 11), Some(11));
    assert_eq!(call(&mut live, 2, true, 12), Some(12));
    assert_eq!(call(&mut live, 1, false, 13), Some(11));
    assert_eq!(call(&mut live, 1, true, 14), Some(11));
    assert_eq!(call(&mut live, 2, true, 15), Some(12));
}

#[test]
fn first_failure_is_the_one_reported() {
    // the local key is no authority either, but the roster is asked for first
    let stage = awaiting_roster(vec![[8; 32]]);
    let failed = stage.duty_roster(Err("no roster".to_string()));
    assert_eq!(failed.err(), Some(Error::Client("no roster".to_string())));

    // neither does the roster fit nor is the local key an authority
    let short = DutyRoster { validator_duty: vec![] };
    let failed = awaiting_roster(vec![[8; 32]]).duty_roster(Ok(short));
    assert_eq!(
        failed.err(),
        Some(Error::InvalidDutyRosterLength { expected: 1, got: 0 })
    );
}
