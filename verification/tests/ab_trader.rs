use trader_bot::ab_traders::ab_traders::{
    pays_with_price, BuyOutcome, BuySource, Plan, SellOutcome, Trader,
};
use trader_bot::common::goods::{EventKind, GoodKind};

fn names(v: &[&str]) -> Vec<String> {
    v.iter().map(|s| s.to_string()).collect()
}

#[test]
fn new_lists_each_market_once() {
    let t = Trader::new("RAST".to_string(), 10, &names(&["BFB", "ZSE", "BFB", "RCNZ"]));
    assert_eq!(t.markets(), &names(&["BFB", "ZSE", "RCNZ"]));
    assert_eq!(t.name(), "RAST");
    assert_eq!(t.ttl(), 10);
}

#[test]
fn new_trader_holds_empty_lock_lists() {
    let t = Trader::new("RAST".to_string(), 10, &names(&["BFB"]));
    for k in [GoodKind::USD, GoodKind::YEN, GoodKind::YUAN] {
        assert_eq!(t.sell_lock_count(k), Some(0));
        assert_eq!(t.purchase_lock_count(k), Some(0));
    }
    assert_eq!(t.sell_lock_count(GoodKind::EUR), None);
    assert_eq!(t.purchase_lock_count(GoodKind::EUR), None);
}

#[test]
fn locks_are_counted_per_kind() {
    let mut t = Trader::new("RAST".to_string(), 10, &names(&["BFB"]));
    t.lock_sell(GoodKind::USD, "t1".to_string());
    t.lock_sell(GoodKind::USD, "t2".to_string());
    t.lock_buy(GoodKind::YEN, "t3".to_string());
    assert_eq!(t.sell_lock_count(GoodKind::USD), Some(2));
    assert_eq!(t.sell_lock_count(GoodKind::YEN), Some(0));
    assert_eq!(t.purchase_lock_count(GoodKind::YEN), Some(1));
    t.lock_sell(GoodKind::EUR, "t4".to_string());
    assert_eq!(t.sell_lock_count(GoodKind::EUR), None);
}

#[test]
fn purchase_drops_sell_locks_and_leads_to_selling() {
    let mut t = Trader::new("RAST".to_string(), 10, &names(&["BFB", "ZSE"]));
    t.lock_sell(GoodKind::USD, "t1".to_string());
    t.lock_buy(GoodKind::USD, "t2".to_string());
    let next = t.after_buy(GoodKind::USD, &"ZSE".to_string(), BuySource::Best, BuyOutcome::Bought);
    assert_eq!(next, Some((EventKind::Bought, GoodKind::USD)));
    assert_eq!(t.sell_lock_count(GoodKind::USD), None);
    assert_eq!(t.purchase_lock_count(GoodKind::USD), Some(1));
    assert_eq!(t.plan(next), Plan::Sell(GoodKind::USD));
    // a lock recorded for a dropped list is lost
    t.lock_sell(GoodKind::USD, "t3".to_string());
    assert_eq!(t.sell_lock_count(GoodKind::USD), None);
}

#[test]
fn sale_drops_purchase_locks_and_leads_to_buying_again() {
    let mut t = Trader::new("RAST".to_string(), 10, &names(&["BFB"]));
    t.lock_buy(GoodKind::YEN, "t1".to_string());
    let next = t.after_sell(GoodKind::YEN, &"BFB".to_string(), SellOutcome::Sold);
    assert_eq!(next, Some((EventKind::Sold, GoodKind::YEN)));
    assert_eq!(t.purchase_lock_count(GoodKind::YEN), None);
    assert_eq!(t.plan(next), Plan::BuyKind(GoodKind::YEN));
}

#[test]
fn failed_sales_lead_to_a_fresh_search() {
    let mut t = Trader::new("RAST".to_string(), 10, &names(&["BFB", "ZSE"]));
    assert_eq!(t.after_sell(GoodKind::YEN, &"BFB".to_string(), SellOutcome::SellFailed), None);
    assert_eq!(t.after_sell(GoodKind::YEN, &"BFB".to_string(), SellOutcome::LockRefused), None);
    assert_eq!(t.markets(), &names(&["BFB", "ZSE"]));
    assert_eq!(t.after_sell(GoodKind::YEN, &"BFB".to_string(), SellOutcome::LockRefusedForDefaultGood), None);
    assert_eq!(t.markets(), &names(&["ZSE"]));
    assert_eq!(t.plan(None), Plan::BuyBest);
}

#[test]
fn lock_limit_drops_the_market_and_retries_the_kind() {
    let mut t = Trader::new("RAST".to_string(), 10, &names(&["BFB", "ZSE", "RCNZ"]));
    let next = t.after_buy(GoodKind::YUAN, &"ZSE".to_string(), BuySource::Best, BuyOutcome::LockRefusedForMaxLocks);
    assert_eq!(next, Some((EventKind::Sold, GoodKind::YUAN)));
    assert_eq!(t.markets(), &names(&["BFB", "RCNZ"]));
    assert_eq!(t.plan(next), Plan::BuyKind(GoodKind::YUAN));
}

#[test]
fn other_purchase_outcomes() {
    let mut t = Trader::new("RAST".to_string(), 10, &names(&["BFB"]));
    let m = "BFB".to_string();
    assert_eq!(
        t.after_buy(GoodKind::USD, &m, BuySource::Best, BuyOutcome::BuyFailedForQuantity),
        Some((EventKind::Bought, GoodKind::USD))
    );
    assert_eq!(t.after_buy(GoodKind::USD, &m, BuySource::Best, BuyOutcome::BuyFailed), None);
    assert_eq!(t.after_buy(GoodKind::USD, &m, BuySource::Best, BuyOutcome::LockRefused), None);
    assert_eq!(t.after_buy(GoodKind::USD, &m, BuySource::SoldKind, BuyOutcome::Bought), None);
    assert_eq!(t.after_buy(GoodKind::USD, &m, BuySource::SoldKind, BuyOutcome::BuyFailedForQuantity), None);
}

#[test]
fn trading_stops_when_every_market_is_dropped() {
    let mut t = Trader::new("RAST".to_string(), 5, &names(&["BFB"]));
    let next = t.after_buy(GoodKind::USD, &"BFB".to_string(), BuySource::Best, BuyOutcome::LockRefusedForMaxLocks);
    assert_eq!(t.markets().len(), 0);
    assert_eq!(t.plan(next), Plan::Stop);
    assert_eq!(t.plan(None), Plan::Stop);
}

#[test]
fn plan_follows_last_lock() {
    let t = Trader::new("RAST".to_string(), 5, &names(&["BFB"]));
    assert_eq!(t.plan(None), Plan::BuyBest);
    assert_eq!(t.plan(Some((EventKind::Bought, GoodKind::YEN))), Plan::Sell(GoodKind::YEN));
    assert_eq!(t.plan(Some((EventKind::Sold, GoodKind::YEN))), Plan::BuyKind(GoodKind::YEN));
    assert_eq!(t.plan(Some((EventKind::Wait, GoodKind::YEN))), Plan::BuyBest);
}

#[test]
fn best_markets_by_quotes() {
    let t = Trader::new("RAST".to_string(), 5, &names(&["BFB", "RCNZ", "ZSE"]));
    assert_eq!(t.best_sell(&vec![Some(10), Some(30), Some(30)]), Some("ZSE".to_string()));
    assert_eq!(t.best_buy(&vec![Some(10), Some(3), Some(3)]), Some("RCNZ".to_string()));
    assert_eq!(t.best_buy(&vec![Some(10), None, Some(3)]), Some("RCNZ".to_string()));
    let empty = Trader::new("RAST".to_string(), 5, &vec![]);
    assert_eq!(empty.best_sell(&vec![]), None);
    assert_eq!(empty.best_buy(&vec![]), None);
}

#[test]
fn best_buy_by_labels() {
    let t = Trader::new("RAST".to_string(), 5, &names(&["BFB", "RCNZ", "ZSE"]));
    let labels = vec![
        vec![(GoodKind::EUR, 100, 1), (GoodKind::USD, 50, 1)],
        vec![(GoodKind::USD, 70, 4), (GoodKind::YEN, 80, 9)],
        vec![(GoodKind::YUAN, 75, 2), (GoodKind::USD, 10, 1)],
    ];
    assert_eq!(t.get_best_buy(&labels), Some(("RCNZ".to_string(), 1)));
}

#[test]
fn best_buy_prefers_the_lower_rate_among_equal_availability() {
    let t = Trader::new("RAST".to_string(), 5, &names(&["BFB", "RCNZ", "ZSE"]));
    let labels = vec![
        vec![(GoodKind::USD, 80, 9)],
        vec![(GoodKind::YEN, 80, 3)],
        vec![(GoodKind::YUAN, 80, 3)],
    ];
    assert_eq!(t.get_best_buy(&labels), Some(("RCNZ".to_string(), 0)));
    let euro_only = vec![vec![(GoodKind::EUR, 80, 1)], vec![], vec![(GoodKind::EUR, 5, 1)]];
    assert_eq!(t.get_best_buy(&euro_only), None);
}

#[test]
fn trading_stops_after_the_number_of_rounds() {
    let mut t = Trader::new("RAST".to_string(), 2, &names(&["BFB", "ZSE"]));
    assert_eq!(t.rounds(), 0);
    let next = t.after_buy(GoodKind::USD, &"BFB".to_string(), BuySource::Best, BuyOutcome::Bought);
    assert_eq!(t.plan(next), Plan::Sell(GoodKind::USD));
    let next = t.after_sell(GoodKind::USD, &"BFB".to_string(), SellOutcome::Sold);
    assert_eq!(t.rounds(), 2);
    assert_eq!(t.plan(next), Plan::Stop);
    let none = Trader::new("RAST".to_string(), 0, &names(&["BFB"]));
    assert_eq!(none.plan(None), Plan::Stop);
}

#[test]
fn zse_is_paid_with_the_price() {
    assert!(pays_with_price(&"ZSE".to_string()));
    assert!(!pays_with_price(&"BFB".to_string()));
}
