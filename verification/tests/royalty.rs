use tipjar::royalty::{distribute_royalties, register_royalty, try_distribute_royalties, RoyaltyStore, MAX_DEPTH, MAX_ROYALTY_BPS};

#[test]
fn register_caps_depth_and_records_lineage() {
    let mut store = RoyaltyStore::new();
    register_royalty(&mut store, "DERIV", "ORIG", 500, 0);
    let cfg = store.royalty_config("DERIV").expect("config stored");
    assert_eq!(cfg.original_creator, "ORIG");
    assert_eq!(cfg.rate_bps, 500);
    assert_eq!(cfg.max_depth, MAX_DEPTH);
    let lineage = store.content_lineage("DERIV").expect("lineage stored");
    assert_eq!(lineage.creator, "DERIV");
    assert_eq!(lineage.parent_creator, "ORIG");
    register_royalty(&mut store, "OTHER", "ORIG", 100, 9);
    assert_eq!(store.royalty_config("OTHER").unwrap().max_depth, MAX_DEPTH);
    register_royalty(&mut store, "OTHER", "ORIG2", 100, 2);
    assert_eq!(store.royalty_config("OTHER").unwrap().max_depth, 2);
    assert_eq!(store.royalty_config("OTHER").unwrap().original_creator, "ORIG2");
    assert!(store.royalty_config("NOBODY").is_none());
}

#[test]
fn tip_without_lineage_keeps_everything() {
    let mut store = RoyaltyStore::new();
    assert_eq!(distribute_royalties(&mut store, "SOLO", "TOKEN", 1000), 1000);
    assert_eq!(store.balance("SOLO", "TOKEN"), 0);
}

#[test]
fn royalties_walk_the_lineage() {
    let mut store = RoyaltyStore::new();
    register_royalty(&mut store, "C", "B", 1000, 0);
    register_royalty(&mut store, "B", "A", 500, 0);
    let net = distribute_royalties(&mut store, "C", "TOKEN", 10_000);
    // C pays B 10% of 10000 = 1000; B's link pays A 5% of the remaining 9000 = 450.
    assert_eq!(net, 8550);
    assert_eq!(store.balance("B", "TOKEN"), 1000);
    assert_eq!(store.balance("A", "TOKEN"), 450);
    assert_eq!(store.balance("A", "OTHER"), 0);
    let net2 = distribute_royalties(&mut store, "C", "TOKEN", 10_000);
    assert_eq!(net2, 8550);
    assert_eq!(store.balance("B", "TOKEN"), 2000);
    assert_eq!(store.balance("A", "TOKEN"), 900);
}

#[test]
fn royalty_stops_when_rounded_to_zero() {
    let mut store = RoyaltyStore::new();
    register_royalty(&mut store, "C", "B", 100, 0);
    assert_eq!(distribute_royalties(&mut store, "C", "T", 99), 99);
    assert_eq!(store.balance("B", "T"), 0);
    assert_eq!(distribute_royalties(&mut store, "C", "T", 100), 99);
    assert_eq!(store.balance("B", "T"), 1);
}

#[test]
fn depth_limit_of_the_link_stops_the_walk() {
    let mut store = RoyaltyStore::new();
    register_royalty(&mut store, "C", "B", 1000, 1);
    register_royalty(&mut store, "B", "A", 1000, 1);
    let net = distribute_royalties(&mut store, "C", "T", 1000);
    assert_eq!(net, 900);
    assert_eq!(store.balance("B", "T"), 100);
    assert_eq!(store.balance("A", "T"), 0);
}

#[test]
fn cycle_is_bounded_by_max_depth() {
    let mut store = RoyaltyStore::new();
    register_royalty(&mut store, "A", "B", 3000, 0);
    register_royalty(&mut store, "B", "A", 3000, 0);
    let net = distribute_royalties(&mut store, "A", "T", 64_000);
    // Five levels of 30%: 19200, 13440, 9408, 6585, 4610 paid; 10757 remains.
    assert_eq!(net, 10757);
    assert_eq!(store.balance("B", "T"), 19200 + 9408 + 4610);
    assert_eq!(store.balance("A", "T"), 13440 + 6585);
}

#[test]
fn rate_is_capped_at_thirty_percent() {
    let mut store = RoyaltyStore::new();
    register_royalty(&mut store, "C", "B", 5000, 0);
    assert_eq!(store.royalty_config("C").unwrap().rate_bps, MAX_ROYALTY_BPS);
    assert_eq!(store.content_lineage("C").unwrap().royalty_config.rate_bps, 3000);
    assert_eq!(distribute_royalties(&mut store, "C", "T", 10_000), 7000);
    assert_eq!(store.balance("B", "T"), 3000);
    register_royalty(&mut store, "D", "B", 2999, 0);
    assert_eq!(store.royalty_config("D").unwrap().rate_bps, 2999);
}

#[test]
fn overflowing_distribution_is_refused_and_changes_nothing() {
    let mut store = RoyaltyStore::new();
    register_royalty(&mut store, "C", "B", 3000, 0);
    assert_eq!(try_distribute_royalties(&mut store, "C", "T", i128::MAX), None);
    assert_eq!(store.balance("B", "T"), 0);
    assert!(store.payment_log().is_empty());
    assert_eq!(try_distribute_royalties(&mut store, "C", "T", 1000), Some(700));
    assert_eq!(store.balance("B", "T"), 300);
    assert_eq!(store.payment_log().len(), 1);
}

#[test]
fn payments_conserve_the_tip_and_are_logged_by_depth() {
    let mut store = RoyaltyStore::new();
    register_royalty(&mut store, "C", "B", 1000, 0);
    register_royalty(&mut store, "B", "A", 500, 0);
    let net = distribute_royalties(&mut store, "C", "TOKEN", 10_000);
    let log = store.payment_log();
    assert_eq!(log.len(), 2);
    assert_eq!((log[0].recipient.as_str(), log[0].creator.as_str(), log[0].amount, log[0].depth), ("B", "C", 1000, 0));
    assert_eq!((log[1].recipient.as_str(), log[1].creator.as_str(), log[1].amount, log[1].depth), ("A", "C", 450, 1));
    let paid: i128 = log.iter().map(|p| p.amount).sum();
    assert_eq!(net + paid, 10_000);
}
