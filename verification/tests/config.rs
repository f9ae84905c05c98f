use dh_p2p::config::{Config, DropPolicy};

#[test]
fn drop_policy_variants_exist() {
    let _a = DropPolicy::Block;
    let _b = DropPolicy::DropNewest;
    let _c = DropPolicy::DropOldestKeepLatest;
}

#[test]
fn default_ptcp_inactivity_timeout_is_less_eager_than_heartbeat_interval() {
    let cfg = Config::default();

    assert_eq!(cfg.heartbeat_interval_secs, 10);
    assert_eq!(cfg.heartbeat_missed_limit, 1);
    assert_eq!(cfg.heartbeat_timeout_grace_secs, 0);
    assert_eq!(cfg.ptcp_inactivity_timeout_secs(), 10);
}
