use trader_bot::common::goods::GoodKind;
use trader_bot::tr_traders::tr_trader::{
    choose_trade_pair, counterpart_word, extreme_market_index, get_max_profit_pair_by_exchange_rate,
    ProfitQuote, Schedule, TrStage,
};
use trader_bot::tr_traders::tr_trader_1::{OneMarketRun, OneMarketStage};

fn quote(kind: GoodKind, buy: [Option<i64>; 3], sell: [Option<i64>; 3], spread: i64) -> ProfitQuote {
    ProfitQuote { kind, buy: buy.to_vec(), sell: sell.to_vec(), spread }
}

fn quotes() -> Vec<ProfitQuote> {
    vec![
        quote(GoodKind::EUR, [Some(1), Some(1), Some(1)], [Some(2), Some(2), Some(2)], 1),
        quote(GoodKind::USD, [Some(9), Some(7), Some(7)], [Some(3), Some(12), Some(12)], 5),
        quote(GoodKind::YEN, [None, Some(4), Some(2)], [Some(7), None, Some(6)], 5),
        quote(GoodKind::YUAN, [Some(3), Some(3), Some(3)], [Some(3), Some(3), Some(3)], 0),
    ]
}

#[test]
fn extreme_markets() {
    assert_eq!(extreme_market_index(&vec![Some(3), Some(1), Some(1)], true), 1);
    assert_eq!(extreme_market_index(&vec![Some(3), Some(8), Some(8)], false), 1);
    assert_eq!(extreme_market_index(&vec![None, None, None], true), 2);
    assert_eq!(extreme_market_index(&vec![None, Some(4), None], false), 1);
}

#[test]
fn profit_pair_by_rank() {
    let q = quotes();
    assert_eq!(get_max_profit_pair_by_exchange_rate(&q, 0), (GoodKind::USD, 1, 1));
    assert_eq!(get_max_profit_pair_by_exchange_rate(&q, 1), (GoodKind::YEN, 2, 0));
    assert_eq!(get_max_profit_pair_by_exchange_rate(&q, 2), (GoodKind::EUR, 0, 0));
    assert_eq!(get_max_profit_pair_by_exchange_rate(&q, 3), (GoodKind::YUAN, 0, 0));
}

#[test]
fn random_pair_is_one_of_the_three_best() {
    let q = quotes();
    for _ in 0..20 {
        let p = choose_trade_pair(&q);
        assert!(p == (GoodKind::USD, 1, 1) || p == (GoodKind::YEN, 2, 0) || p == (GoodKind::EUR, 0, 0));
    }
}

#[test]
fn register_words() {
    assert_eq!(counterpart_word(&"bought".to_string()), "from".to_string());
    assert_eq!(counterpart_word(&"sold".to_string()), "to".to_string());
}

#[test]
fn schedule_waits_when_nothing_to_buy() {
    let mut s = Schedule::new(1);
    assert_eq!((s.stage(), s.day()), (TrStage::Top, 0));
    s.step(true);
    assert_eq!(s.stage(), TrStage::Choose);
    s.step(false);
    assert_eq!(s.stage(), TrStage::Wait);
    s.step(true);
    assert_eq!((s.stage(), s.day()), (TrStage::Top, 1));
    s.step(true);
    assert_eq!(s.stage(), TrStage::Done);
}

#[test]
fn schedule_full_iteration_counts_four_days() {
    let mut s = Schedule::new(100);
    let steps = [
        (true, TrStage::Choose, 0),
        (true, TrStage::Purchase, 0),
        (true, TrStage::LockBuy, 0),
        (true, TrStage::Buy, 1),
        (false, TrStage::SellSide, 2),
        (true, TrStage::Sale, 2),
        (true, TrStage::LockSell, 2),
        (true, TrStage::Sell, 3),
        (true, TrStage::Top, 4),
    ];
    for (ok, stage, day) in steps {
        s.step(ok);
        assert_eq!((s.stage(), s.day()), (stage, day));
    }
}

#[test]
fn schedule_refused_lock_skips_trade() {
    let mut s = Schedule::new(100);
    for ok in [true, true, true] {
        s.step(ok);
    }
    assert_eq!(s.stage(), TrStage::LockBuy);
    s.step(false);
    assert_eq!((s.stage(), s.day()), (TrStage::SellSide, 1));
    s.step(false);
    assert_eq!(s.stage(), TrStage::Top);
}

#[test]
fn schedule_keeps_the_chosen_pair() {
    let mut s = Schedule::new(100);
    s.step(true);
    assert_eq!(s.stage(), TrStage::Choose);
    let p = s.choose_pair(&quotes());
    assert!(p == (GoodKind::USD, 1, 1) || p == (GoodKind::YEN, 2, 0) || p == (GoodKind::EUR, 0, 0));
    assert_eq!(s.pair(), p);
    for ok in [true, true, true, true] {
        s.step(ok);
        assert_eq!(s.pair(), p);
    }
    assert_eq!(s.stage(), TrStage::SellSide);
}

#[test]
fn schedule_tick_decision() {
    let mut s = Schedule::new(100);
    assert!(!s.ticks());
    s.step(true);
    s.step(false);
    assert_eq!(s.stage(), TrStage::Wait);
    assert!(s.ticks());
}

#[test]
fn one_market_loop_stops_at_refused_lock() {
    let mut r = OneMarketRun::new();
    assert_eq!(r.stage(), OneMarketStage::Lock);
    r.step(true);
    assert_eq!(r.stage(), OneMarketStage::Sell);
    r.step(false);
    assert_eq!(r.stage(), OneMarketStage::Lock);
    r.step(false);
    assert_eq!(r.stage(), OneMarketStage::Done);
}
