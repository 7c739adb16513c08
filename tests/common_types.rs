use anonnet::common::{CreditBalance, DomainError, NodeId, NODE_ID_LEN};
use anonnet::config::{NodeConfig, DEFAULT_PORT};
use anonnet::node_info::AccountInfo;
use anonnet::types::{Bandwidth, Credits, Reputation, Timestamp};

#[test]
fn test_default_config() {
    let config = NodeConfig::default();
    assert_eq!(config.listen_port, DEFAULT_PORT);
    assert!(config.accept_relay);
}

#[test]
fn test_config_builder() {
    let config = NodeConfig::new()
        .with_port(8080)
        .with_bootstrap_nodes(vec!["node1:9090".to_string()])
        .with_data_dir("/tmp/data".to_string());
    assert_eq!(config.listen_port, 8080);
    assert_eq!(config.bootstrap_nodes.len(), 1);
    assert_eq!(config.data_dir, "/tmp/data");
}

#[test]
fn node_id_rejects_wrong_length() {
    let err = NodeId::from_slice(&[1u8; 16][..]).unwrap_err();
    assert!(matches!(err, DomainError::InvalidNodeId { .. }));
}

#[test]
fn node_id_parses_hex_roundtrip() {
    let hex_id = "ab".repeat(NODE_ID_LEN);
    let parsed = NodeId::from_hex(&hex_id).expect("should parse valid hex");
    assert_eq!(parsed.to_string(), hex_id);
}

#[test]
fn node_id_rejects_bad_hex() {
    let err = NodeId::from_hex("not-hex").unwrap_err();
    assert!(matches!(err, DomainError::InvalidNodeIdHex(_)));
}

#[test]
fn credit_balance_updates() {
    let mut balance = CreditBalance::new(100);
    balance.credit(50).unwrap();
    assert_eq!(balance.available(), 150);
    balance.debit(25).unwrap();
    assert_eq!(balance.available(), 125);
}

#[test]
fn credit_balance_refuses_overdraft_and_overflow() {
    let mut balance = CreditBalance::new(10);
    assert_eq!(
        balance.debit(11),
        Err(DomainError::InsufficientCredits { available: 10, required: 11 })
    );
    assert_eq!(balance.available(), 10);
    let mut full = CreditBalance::new(u64::MAX);
    assert_eq!(full.credit(1), Err(DomainError::CreditOverflow));
    assert_eq!(full.available(), u64::MAX);
}

#[test]
fn test_account_spend_earn() {
    let mut account = AccountInfo::new();
    let initial = account.balance;

    account.earn(Credits::new(500));
    assert_eq!(account.balance, initial + Credits::new(500));
    assert_eq!(account.total_earned, Credits::new(500));

    account.spend(Credits::new(200)).unwrap();
    assert_eq!(account.balance, initial + Credits::new(300));
    assert_eq!(account.total_spent, Credits::new(200));

    let result = account.spend(Credits::new(100000));
    assert!(result.is_err());
}

#[test]
fn test_net_contribution() {
    let mut account = AccountInfo::new();
    account.earn(Credits::new(1000));
    account.spend(Credits::new(300)).unwrap();
    assert_eq!(account.net_contribution(), 700);
}

#[test]
fn test_credits_arithmetic() {
    let c1 = Credits::new(100);
    let c2 = Credits::new(50);
    assert_eq!(c1 + c2, Credits::new(150));
    assert_eq!(c1 - c2, Credits::new(50));
    assert_eq!(c1.checked_sub(Credits::new(200)), None);
}

#[test]
fn credits_saturate_at_the_ends() {
    assert_eq!(Credits::new(u64::MAX) + Credits::new(1), Credits::new(u64::MAX));
    assert_eq!(Credits::new(1) - Credits::new(2), Credits::new(0));
    assert_eq!(Credits::new(u64::MAX).checked_add(Credits::new(1)), None);
    assert_eq!(Credits::new(3).checked_add(Credits::new(4)), Some(Credits::new(7)));
    assert_eq!(Credits::new(7).to_string(), "7 credits");
}

#[test]
fn test_bandwidth_conversion() {
    let bw = Bandwidth::from_mb(10);
    assert_eq!(bw.as_bytes(), 10 * 1024 * 1024);
    assert_eq!(Bandwidth::from_kb(2).as_bytes(), 2048);
    assert_eq!(Bandwidth::from_gb(1).as_bytes(), 1073741824);
}

#[test]
fn test_reputation_bounds() {
    let mut rep = Reputation::new(100);
    rep.increase(20000);
    assert_eq!(rep.score(), Reputation::max().0);

    rep.decrease(20000);
    assert_eq!(rep.score(), 0);
}

#[test]
fn reputation_new_caps_at_max() {
    assert_eq!(Reputation::new(20000).score(), 10000);
    assert_eq!(Reputation::new(42).score(), 42);
}

#[test]
fn test_timestamp() {
    let ts1 = Timestamp::now();
    let ts2 = Timestamp::from_secs(ts1.as_secs() - 10);
    let elapsed = ts2.elapsed();
    assert!(elapsed.as_secs() >= 10);
}

#[test]
fn elapsed_at_is_zero_for_a_future_time() {
    let t = Timestamp::from_secs(100);
    assert_eq!(t.elapsed_at(Timestamp::from_secs(40)), 0);
    assert_eq!(t.elapsed_at(Timestamp::from_secs(140)), 40);
}

#[test]
fn credits_text_is_decimal_with_unit() {
    assert_eq!(Credits(0).to_string(), "0 credits");
    assert_eq!(Credits(1500).to_string(), "1500 credits");
    assert_eq!(Credits(u64::MAX).to_string(), "18446744073709551615 credits");
}
