use trader_bot::common::goods::GoodKind;
use trader_bot::common::selection::{
    choose_buy_market, choose_sell_market, most_stocked_label, pick_best_candidate, rank_descending,
    scan_strictly_better,
};

#[test]
fn sell_market_is_last_highest() {
    assert_eq!(choose_sell_market(&vec![Some(3), Some(5), Some(5), Some(1)]), Some(2));
}

#[test]
fn sell_market_keeps_held_quote_over_error() {
    assert_eq!(choose_sell_market(&vec![Some(3), None, Some(9)]), Some(2));
    assert_eq!(choose_sell_market(&vec![None, Some(9)]), Some(0));
}

#[test]
fn sell_market_of_no_market() {
    assert_eq!(choose_sell_market(&vec![]), None);
}

#[test]
fn buy_market_is_first_lowest() {
    assert_eq!(choose_buy_market(&vec![Some(4), Some(2), Some(2)]), Some(1));
}

#[test]
fn buy_market_with_errors() {
    assert_eq!(choose_buy_market(&vec![None, Some(1)]), Some(0));
    assert_eq!(choose_buy_market(&vec![Some(1), None]), Some(1));
    assert_eq!(choose_buy_market(&vec![]), None);
}

#[test]
fn most_stocked_is_last_of_largest() {
    let labels = vec![(GoodKind::USD, 7, 1), (GoodKind::YEN, 7, 5), (GoodKind::EUR, 2, 1)];
    assert_eq!(most_stocked_label(&labels), 1);
}

#[test]
fn best_candidate_is_most_available_and_skips_euro_markets() {
    let markets = vec![
        vec![(GoodKind::EUR, 10, 1), (GoodKind::USD, 5, 1)],
        vec![(GoodKind::USD, 7, 2), (GoodKind::YEN, 7, 8)],
        vec![(GoodKind::YUAN, 3, 1), (GoodKind::USD, 4, 1)],
        vec![],
    ];
    assert_eq!(pick_best_candidate(&markets), Some((1, 1)));
}

#[test]
fn best_candidate_of_equal_availability_has_lowest_rate() {
    let markets = vec![vec![(GoodKind::USD, 5, 3)], vec![(GoodKind::YEN, 10, 7)], vec![(GoodKind::YUAN, 10, 2)]];
    assert_eq!(pick_best_candidate(&markets), Some((2, 0)));
}

#[test]
fn best_candidate_of_euro_only_markets() {
    let markets = vec![vec![(GoodKind::EUR, 10, 1)], vec![]];
    assert_eq!(pick_best_candidate(&markets), None);
}

#[test]
fn strict_scan_from_bound() {
    assert_eq!(scan_strictly_better(&vec![Some(5), Some(3), Some(3)], Some(100), true), Some(1));
    assert_eq!(scan_strictly_better(&vec![Some(100), None], Some(100), true), None);
    assert_eq!(scan_strictly_better(&vec![Some(2), Some(7), Some(7)], Some(0), false), Some(1));
    assert_eq!(scan_strictly_better(&vec![None, Some(4)], None, false), Some(1));
}

#[test]
fn ranking_is_stable_and_descending() {
    assert_eq!(rank_descending(&vec![3, 5, 3, 9]), vec![3, 1, 0, 2]);
    assert_eq!(rank_descending(&vec![]), Vec::<usize>::new());
    assert_eq!(rank_descending(&vec![1, 1, 1]), vec![0, 1, 2]);
}
