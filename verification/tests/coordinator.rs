//! Tests of the registry coordinator: initialization, the join and
//! completion protocol, expiry and the queries.

use donation_manager::contract::Coordinator;
use donation_manager::error::Error;
use donation_manager::msg::{CompletionOutcome, GetConfigResponse};
use donation_manager::peer::State;
use donation_manager::state::{CoinValue, Config, Ratio, RATIO_ONE};

/// Protobuf encoding of an instantiate reply carrying `addr` as the
/// new contract's address: field 1, length-delimited.
fn instantiate_reply_bytes(addr: &str) -> Vec<u8> {
    let mut data = vec![0x0a, addr.len() as u8];
    data.extend_from_slice(addr.as_bytes());
    data
}

fn test_config(peer_code_id: u64) -> Config {
    Config {
        peer_code_id,
        incremental_donation: CoinValue::new("utdg".to_string(), 100),
        collective_ratio: Ratio::percent(60),
    }
}

#[test]
fn instantiate_check() {
    let mut coord = Coordinator::new();
    let peer_code_id = 1;
    coord.initialize(test_config(peer_code_id)).unwrap();

    let config = coord.query_config();
    assert_eq!(
        config,
        GetConfigResponse {
            config: Some(Config {
                peer_code_id,
                incremental_donation: CoinValue::new("utdg".to_string(), 100),
                collective_ratio: Ratio::percent(60),
            })
        }
    );
}

#[test]
fn join_check() {
    let mut coord = Coordinator::new();
    let peer_code_id = 1;
    coord.initialize(test_config(peer_code_id)).unwrap();

    let (token, req) = coord.join("creator_address".to_string()).unwrap();
    assert_eq!(req.code_id, peer_code_id);
    assert_eq!(req.owner, "creator_address");
    assert_eq!(req.label, "creator_address-peer");

    let peer_addr = "peer_contract_address";
    let (peer, owner) = coord
        .completion(
            token,
            CompletionOutcome::Success { payload: Some(instantiate_reply_bytes(peer_addr)) },
        )
        .unwrap();
    assert_eq!(peer, peer_addr);
    assert_eq!(owner, "creator_address");

    let resp = coord.query_member_peer_addr("creator_address").unwrap();
    assert_eq!(resp.addr, peer_addr);

    // The freshly created peer unit starts with no tracked donators
    // and the creating coordinator as manager.
    let peer_state = State::initial(
        req.incremental_donation,
        req.collective_ratio,
        "manager".to_string(),
    );
    assert_eq!(peer_state.donators_response().donators, 0);
    assert_eq!(peer_state.manager_response().manager, "manager");
}

#[test]
fn single_peer_single_donate() {
    // After a single donation, the only peer gets the whole amount.
    let mut coord = Coordinator::new();
    coord.initialize(test_config(1)).unwrap();
    let (token, _req) = coord.join("member".to_string()).unwrap();
    coord
        .completion(
            token,
            CompletionOutcome::Success { payload: Some(instantiate_reply_bytes("peer_contract")) },
        )
        .unwrap();

    let weights = vec![1];
    let funds = vec![CoinValue::new("utgd".to_string(), 100)];
    let msgs = coord.donate(&weights, &funds).unwrap();
    assert_eq!(msgs.len(), 1);
    assert_eq!(msgs[0].to_address, "peer_contract");
    assert_eq!(msgs[0].amount.len(), 1);
    assert_eq!(msgs[0].amount[0].denom, "utgd");
    assert_eq!(msgs[0].amount[0].amount, 100);
}

#[test]
fn join_references_template_and_registers_peer() {
    let mut coord = Coordinator::new();
    coord.initialize(test_config(7)).unwrap();

    let (token, req) = coord.join("alice".to_string()).unwrap();
    assert_eq!(req.code_id, 7);
    assert_eq!(req.owner, "alice");
    assert_eq!(req.label, "alice-peer");
    assert_eq!(req.incremental_donation, CoinValue::new("utdg".to_string(), 100));
    assert_eq!(req.collective_ratio, Ratio::percent(60));

    let (peer, owner) = coord
        .completion(
            token,
            CompletionOutcome::Success { payload: Some(instantiate_reply_bytes("peerA")) },
        )
        .unwrap();
    assert_eq!(peer, "peerA");
    assert_eq!(owner, "alice");
    assert_eq!(coord.query_member_peer_addr("alice").unwrap().addr, "peerA");
}

#[test]
fn completion_replay_fails() {
    let mut coord = Coordinator::new();
    coord.initialize(test_config(1)).unwrap();
    let (token, _) = coord.join("alice".to_string()).unwrap();

    let payload = instantiate_reply_bytes("peerA");
    coord
        .completion(token, CompletionOutcome::Success { payload: Some(payload.clone()) })
        .unwrap();

    let second = coord.completion(token, CompletionOutcome::Success { payload: Some(payload) });
    assert!(matches!(second, Err(Error::UnknownCorrelationToken)));
}

#[test]
fn unknown_token_leaves_state_unchanged() {
    let mut coord = Coordinator::new();
    coord.initialize(test_config(1)).unwrap();
    let (token, _) = coord.join("alice".to_string()).unwrap();

    let stray = token + 1;
    let r = coord.completion(
        stray,
        CompletionOutcome::Success { payload: Some(instantiate_reply_bytes("peerA")) },
    );
    assert!(matches!(r, Err(Error::UnknownCorrelationToken)));

    // The registry was not written, and the real token is still
    // pending and completes normally.
    assert!(matches!(
        coord.query_member_peer_addr("alice"),
        Err(Error::OwnerNotRegistered)
    ));
    coord
        .completion(
            token,
            CompletionOutcome::Success { payload: Some(instantiate_reply_bytes("peerA")) },
        )
        .unwrap();
    assert_eq!(coord.query_member_peer_addr("alice").unwrap().addr, "peerA");
}

#[test]
fn unregistered_owner_lookup_fails() {
    let coord = Coordinator::new();
    assert!(matches!(
        coord.query_member_peer_addr("nobody"),
        Err(Error::OwnerNotRegistered)
    ));
}

#[test]
fn missing_payload_is_refused_before_consumption() {
    let mut coord = Coordinator::new();
    coord.initialize(test_config(1)).unwrap();
    let (token, _) = coord.join("alice".to_string()).unwrap();

    let r = coord.completion(token, CompletionOutcome::Success { payload: None });
    assert!(matches!(r, Err(Error::MissingCompletionPayload)));

    // The pending entry was not consumed: a well-formed completion
    // for the same token still succeeds.
    coord
        .completion(
            token,
            CompletionOutcome::Success { payload: Some(instantiate_reply_bytes("peerA")) },
        )
        .unwrap();
}

#[test]
fn malformed_payload_is_refused_before_consumption() {
    let mut coord = Coordinator::new();
    coord.initialize(test_config(1)).unwrap();
    let (token, _) = coord.join("alice".to_string()).unwrap();

    // Field number 2 where the address field is expected.
    let r = coord.completion(
        token,
        CompletionOutcome::Success { payload: Some(vec![0x12, 0x01, 0x00]) },
    );
    assert!(matches!(r, Err(Error::MalformedCompletionPayload)));

    coord
        .completion(
            token,
            CompletionOutcome::Success { payload: Some(instantiate_reply_bytes("peerA")) },
        )
        .unwrap();
}

#[test]
fn spawn_failure_releases_pending_entry() {
    let mut coord = Coordinator::new();
    coord.initialize(test_config(1)).unwrap();
    let (token, _) = coord.join("alice".to_string()).unwrap();

    let r = coord.completion(
        token,
        CompletionOutcome::Failure { reason: "out of gas".to_string() },
    );
    match r {
        Err(Error::SpawnFailed { reason }) => assert_eq!(reason, "out of gas"),
        other => panic!("expected a surfaced spawn failure, got {:?}", other),
    }

    // The entry was released even though the spawn failed: the token
    // cannot be consumed again.
    let again = coord.completion(
        token,
        CompletionOutcome::Success { payload: Some(instantiate_reply_bytes("peerA")) },
    );
    assert!(matches!(again, Err(Error::UnknownCorrelationToken)));
    assert!(matches!(
        coord.query_member_peer_addr("alice"),
        Err(Error::OwnerNotRegistered)
    ));
}

#[test]
fn expiry_releases_pending_entry() {
    let mut coord = Coordinator::new();
    coord.initialize(test_config(1)).unwrap();
    let (token, _) = coord.join("alice".to_string()).unwrap();

    coord.expire(token).unwrap();
    let r = coord.completion(
        token,
        CompletionOutcome::Success { payload: Some(instantiate_reply_bytes("peerA")) },
    );
    assert!(matches!(r, Err(Error::UnknownCorrelationToken)));
    assert!(matches!(coord.expire(token), Err(Error::UnknownCorrelationToken)));
}

#[test]
fn initialize_twice_fails() {
    let mut coord = Coordinator::new();
    coord.initialize(test_config(1)).unwrap();
    let r = coord.initialize(test_config(9));
    assert!(matches!(r, Err(Error::AlreadyInitialized)));
    // The first configuration is the one that stays.
    assert_eq!(coord.query_config().config.unwrap().peer_code_id, 1);
}

#[test]
fn join_without_config_fails() {
    let mut coord = Coordinator::new();
    let r = coord.join("alice".to_string());
    assert!(matches!(r, Err(Error::ConfigNotFound)));
}

#[test]
fn concurrent_joins_keep_their_attribution() {
    let mut coord = Coordinator::new();
    coord.initialize(test_config(1)).unwrap();

    let (token_a, _) = coord.join("alice".to_string()).unwrap();
    let (token_b, _) = coord.join("bob".to_string()).unwrap();
    assert_ne!(token_a, token_b);

    // The later join completes first; each completion lands on its
    // own owner.
    let (_, owner_b) = coord
        .completion(
            token_b,
            CompletionOutcome::Success { payload: Some(instantiate_reply_bytes("peerB")) },
        )
        .unwrap();
    assert_eq!(owner_b, "bob");
    let (_, owner_a) = coord
        .completion(
            token_a,
            CompletionOutcome::Success { payload: Some(instantiate_reply_bytes("peerA")) },
        )
        .unwrap();
    assert_eq!(owner_a, "alice");
    assert_eq!(coord.query_member_peer_addr("alice").unwrap().addr, "peerA");
    assert_eq!(coord.query_member_peer_addr("bob").unwrap().addr, "peerB");
}

#[test]
fn registry_enumerates_in_ascending_peer_order() {
    let mut coord = Coordinator::new();
    coord.initialize(test_config(1)).unwrap();

    for (owner, peer) in [("o1", "bravo"), ("o2", "alpha"), ("o3", "charlie")] {
        let (token, _) = coord.join(owner.to_string()).unwrap();
        coord
            .completion(
                token,
                CompletionOutcome::Success { payload: Some(instantiate_reply_bytes(peer)) },
            )
            .unwrap();
    }
    assert_eq!(coord.registry_peers(), vec!["alpha", "bravo", "charlie"]);
}

#[test]
fn owner_with_two_peers_surfaces_the_smallest() {
    let mut coord = Coordinator::new();
    coord.initialize(test_config(1)).unwrap();

    for peer in ["zeta", "beta"] {
        let (token, _) = coord.join("alice".to_string()).unwrap();
        coord
            .completion(
                token,
                CompletionOutcome::Success { payload: Some(instantiate_reply_bytes(peer)) },
            )
            .unwrap();
    }
    assert_eq!(coord.query_member_peer_addr("alice").unwrap().addr, "beta");
}

#[test]
fn ratio_fixed_point_values() {
    assert_eq!(Ratio::percent(60).atomics(), 600_000_000_000_000_000);
    assert_eq!(Ratio::percent(0).atomics(), 0);
    assert_eq!(Ratio::percent(100).atomics(), RATIO_ONE);
    assert_eq!(Ratio::from_atomics(RATIO_ONE).unwrap().atomics(), RATIO_ONE);
    assert!(Ratio::from_atomics(RATIO_ONE + 1).is_none());
}
