use trader_bot::common::goods::GoodKind;
use trader_bot::sa_traders::sa_trader_1::{
    get_trader_goodquantity, market_slot, pick_buy_market, pick_cheapest_good, pick_sell_market,
    MarketSlot, QuantitySource, SaStage, Strategy, Trader_SA,
};

#[test]
fn names_designate_markets() {
    assert_eq!(market_slot("RCNZ"), MarketSlot::Rcnz);
    assert_eq!(market_slot("ZSE"), MarketSlot::Zse);
    assert_eq!(market_slot("BFB"), MarketSlot::Bfb);
    assert_eq!(market_slot("anything"), MarketSlot::Bfb);
}

#[test]
fn quantity_sources() {
    let kinds = vec![GoodKind::USD, GoodKind::YEN, GoodKind::YUAN, GoodKind::YEN];
    assert_eq!(get_trader_goodquantity(&kinds, GoodKind::EUR), QuantitySource::Cash);
    assert_eq!(get_trader_goodquantity(&kinds, GoodKind::YEN), QuantitySource::Good(3));
    assert_eq!(get_trader_goodquantity(&kinds, GoodKind::USD), QuantitySource::Good(0));
    assert_eq!(get_trader_goodquantity(&vec![], GoodKind::USD), QuantitySource::Nothing);
}

#[test]
fn buy_market_is_cheapest_below_the_largest_price() {
    assert_eq!(pick_buy_market(&vec![Some(50), Some(20), Some(20)], 1000), Some(1));
    assert_eq!(pick_buy_market(&vec![None, Some(1000), None], 1000), None);
}

#[test]
fn sell_market_pays_the_most_above_zero() {
    assert_eq!(pick_sell_market(&vec![Some(5), Some(9), Some(9)]), Some(1));
    assert_eq!(pick_sell_market(&vec![Some(0), None, Some(0)]), None);
}

#[test]
fn cheapest_good_search() {
    assert_eq!(pick_cheapest_good(&vec![Some(5), Some(2), Some(2)], Some(-1)), Some(1));
    assert_eq!(pick_cheapest_good(&vec![None, Some(1)], Some(-1)), Some(0));
    assert_eq!(pick_cheapest_good(&vec![], Some(-1)), None);
}

#[test]
fn new_trader_clock_starts_at_one() {
    let t = Trader_SA::new("RAST".to_string());
    assert_eq!(t.time(), 1);
    assert_eq!(t.get_trader_name(), "RAST".to_string());
}

#[test]
fn strategy_ends_after_a_wait_past_the_rounds() {
    let mut t = Trader_SA::new("RAST".to_string());
    let mut s = Strategy::new(1);
    assert_eq!(s.stage(), SaStage::Top);
    s.step(&mut t, true);
    assert_eq!(s.stage(), SaStage::BuyDecision);
    s.step(&mut t, false);
    assert_eq!(s.stage(), SaStage::WaitAfterBuy);
    s.step(&mut t, true);
    assert_eq!((s.stage(), t.time()), (SaStage::Done, 2));
}

#[test]
fn refused_lock_starts_the_next_round() {
    let mut t = Trader_SA::new("RAST".to_string());
    let mut s = Strategy::new(5);
    s.step(&mut t, true);
    s.step(&mut t, true);
    assert_eq!(s.stage(), SaStage::LockBuy);
    s.step(&mut t, false);
    assert_eq!((s.stage(), t.time()), (SaStage::Top, 1));
    s.step(&mut t, true);
    s.step(&mut t, false);
    s.step(&mut t, true);
    assert_eq!((s.stage(), t.time()), (SaStage::Top, 2));
}

#[test]
fn strategy_ends_in_the_middle_of_a_round() {
    let mut t = Trader_SA::new("RAST".to_string());
    let mut s = Strategy::new(2);
    s.step(&mut t, true);
    s.step(&mut t, true);
    s.step(&mut t, true);
    assert_eq!((s.stage(), t.time()), (SaStage::Buy, 2));
    s.step(&mut t, true);
    assert_eq!((s.stage(), t.time()), (SaStage::Done, 3));
}

#[test]
fn failed_purchase_leads_on_to_selling() {
    let mut t = Trader_SA::new("RAST".to_string());
    let mut s = Strategy::new(5);
    s.step(&mut t, true);
    s.step(&mut t, true);
    s.step(&mut t, true);
    s.step(&mut t, false);
    assert_eq!((s.stage(), t.time()), (SaStage::SellDecision, 2));
}

#[test]
fn strategy_round_that_trades() {
    let mut t = Trader_SA::new("RAST".to_string());
    let mut s = Strategy::new(10);
    let answers = [true, true, true, true, true, true, true];
    let expected = [
        SaStage::BuyDecision,
        SaStage::LockBuy,
        SaStage::Buy,
        SaStage::SellDecision,
        SaStage::LockSell,
        SaStage::Sell,
        SaStage::Top,
    ];
    for (ok, stage) in answers.iter().zip(expected.iter()) {
        s.step(&mut t, *ok);
        assert_eq!(s.stage(), *stage);
    }
    assert_eq!(t.time(), 5);
}

#[test]
fn round_sells_the_currency_it_bought() {
    let mut t = Trader_SA::new("RAST".to_string());
    let mut s = Strategy::new(10);
    s.step(&mut t, true);
    assert_eq!(s.stage(), SaStage::BuyDecision);
    let kinds = vec![GoodKind::USD, GoodKind::YEN, GoodKind::YUAN];
    let pick = s.choose_purchase(&vec![Some(40), Some(20), Some(20)], 1000, &kinds);
    assert_eq!(pick, Some(1));
    assert_eq!((s.kind(), s.buy_slot()), (GoodKind::YEN, MarketSlot::Rcnz));
    for ok in [true, true, true] {
        s.step(&mut t, ok);
    }
    assert_eq!(s.stage(), SaStage::SellDecision);
    assert_eq!(s.kind(), GoodKind::YEN);
    let pick = s.choose_sale(&vec![Some(3), None, Some(9)]);
    assert_eq!(pick, Some(2));
    assert_eq!((s.kind(), s.sell_slot(), s.buy_slot()), (GoodKind::YEN, MarketSlot::Zse, MarketSlot::Rcnz));
    s.step(&mut t, true);
    assert_eq!((s.stage(), s.kind()), (SaStage::LockSell, GoodKind::YEN));
}

#[test]
fn no_purchase_falls_back_to_bfb() {
    let mut t = Trader_SA::new("RAST".to_string());
    let mut s = Strategy::new(10);
    s.step(&mut t, true);
    let kinds = vec![GoodKind::YUAN, GoodKind::YEN, GoodKind::USD];
    assert_eq!(s.choose_purchase(&vec![None, Some(1000), None], 1000, &kinds), None);
    assert_eq!((s.kind(), s.buy_slot()), (GoodKind::YUAN, MarketSlot::Bfb));
}

#[test]
fn strategy_tick_decision() {
    let mut t = Trader_SA::new("RAST".to_string());
    let mut s = Strategy::new(10);
    assert!(!s.ticks(true));
    s.step(&mut t, true);
    s.step(&mut t, false);
    assert_eq!(s.stage(), SaStage::WaitAfterBuy);
    assert!(s.ticks(false));
}
