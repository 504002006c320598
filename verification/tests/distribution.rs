//! Tests of the distribution engine: proportional shares, floor
//! rounding and dust, zero-weight pools, and overflow rejection.

use donation_manager::distribution::compute_distribution;
use donation_manager::error::Error;
use donation_manager::state::CoinValue;

fn utdg(amount: u128) -> CoinValue {
    CoinValue::new("utdg".to_string(), amount)
}

#[test]
fn proportional_shares_without_dust() {
    // Weights 3 and 7 over a balance of 100: shares 30 and 70.
    let peers = vec!["peerA".to_string(), "peerB".to_string()];
    let weights = vec![3, 7];
    let funds = vec![utdg(100)];
    let msgs = compute_distribution(&peers, &weights, &funds).unwrap();
    assert_eq!(msgs.len(), 2);
    assert_eq!(msgs[0].to_address, "peerA");
    assert_eq!(msgs[0].amount[0].amount, 30);
    assert_eq!(msgs[1].to_address, "peerB");
    assert_eq!(msgs[1].amount[0].amount, 70);
}

#[test]
fn floored_shares_retain_dust() {
    // Weights 1 and 2 over a balance of 10: shares 3 and 6, one unit
    // of dust stays in the pool, and that is no error.
    let peers = vec!["peerA".to_string(), "peerB".to_string()];
    let weights = vec![1, 2];
    let funds = vec![utdg(10)];
    let msgs = compute_distribution(&peers, &weights, &funds).unwrap();
    assert_eq!(msgs.len(), 2);
    assert_eq!(msgs[0].amount[0].amount, 3);
    assert_eq!(msgs[1].amount[0].amount, 6);
    let sent: u128 = msgs.iter().map(|m| m.amount[0].amount).sum();
    assert_eq!(sent, 9);
    assert!(sent <= 10);
}

#[test]
fn zero_peers_give_empty_transfer_set() {
    let peers: Vec<String> = Vec::new();
    let weights: Vec<u64> = Vec::new();
    let funds = vec![utdg(100)];
    let msgs = compute_distribution(&peers, &weights, &funds).unwrap();
    assert!(msgs.is_empty());
}

#[test]
fn zero_total_weight_gives_empty_transfer_set() {
    let peers = vec!["peerA".to_string(), "peerB".to_string()];
    let weights = vec![0, 0];
    let funds = vec![utdg(100)];
    let msgs = compute_distribution(&peers, &weights, &funds).unwrap();
    assert!(msgs.is_empty());
}

#[test]
fn all_zero_share_peers_are_dropped() {
    // With weights 1 and 1000 over a balance of 100, the first peer's
    // share floors to zero and the peer is dropped silently.
    let peers = vec!["peerA".to_string(), "peerB".to_string()];
    let weights = vec![1, 1000];
    let funds = vec![utdg(100)];
    let msgs = compute_distribution(&peers, &weights, &funds).unwrap();
    assert_eq!(msgs.len(), 1);
    assert_eq!(msgs[0].to_address, "peerB");
    assert_eq!(msgs[0].amount[0].amount, 100 * 1000 / 1001);
}

#[test]
fn every_denomination_is_split() {
    let peers = vec!["peerA".to_string(), "peerB".to_string()];
    let weights = vec![1, 1];
    let funds = vec![utdg(10), CoinValue::new("uatom".to_string(), 5)];
    let msgs = compute_distribution(&peers, &weights, &funds).unwrap();
    assert_eq!(msgs.len(), 2);
    for msg in &msgs {
        assert_eq!(msg.amount.len(), 2);
        assert_eq!(msg.amount[0].denom, "utdg");
        assert_eq!(msg.amount[0].amount, 5);
        assert_eq!(msg.amount[1].denom, "uatom");
        assert_eq!(msg.amount[1].amount, 2);
    }
}

#[test]
fn unrepresentable_product_is_rejected() {
    // The product balance * weight no longer fits even the widened
    // domain.
    let peers = vec!["peerA".to_string(), "peerB".to_string()];
    let weights = vec![3, 1];
    let funds = vec![utdg(u128::MAX)];
    let r = compute_distribution(&peers, &weights, &funds);
    assert!(matches!(r, Err(Error::ArithmeticOverflow)));
}

#[test]
fn whole_balance_to_single_peer() {
    let peers = vec!["peerA".to_string()];
    let weights = vec![5];
    let funds = vec![utdg(100)];
    let msgs = compute_distribution(&peers, &weights, &funds).unwrap();
    assert_eq!(msgs.len(), 1);
    assert_eq!(msgs[0].amount[0].amount, 100);
}
