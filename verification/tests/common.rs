use trader_bot::common::goods::{first_index_of_kind, last_index_of_kind, CustomEventKind, GoodKind};
use trader_bot::common::names::get_market_name_for_sending;

#[test]
fn baku_is_sent_as_bfb() {
    assert_eq!(get_market_name_for_sending("Baku stock exchange"), "BFB".to_string());
}

#[test]
fn other_markets_keep_their_name() {
    assert_eq!(get_market_name_for_sending("ZSE"), "ZSE".to_string());
    assert_eq!(get_market_name_for_sending("BFB"), "BFB".to_string());
    assert_eq!(get_market_name_for_sending(""), "".to_string());
}

#[test]
fn kind_searches() {
    let kinds = vec![GoodKind::USD, GoodKind::YEN, GoodKind::USD];
    assert_eq!(first_index_of_kind(&kinds, GoodKind::USD), Some(0));
    assert_eq!(last_index_of_kind(&kinds, GoodKind::USD), Some(2));
    assert_eq!(first_index_of_kind(&kinds, GoodKind::EUR), None);
    assert_eq!(last_index_of_kind(&kinds, GoodKind::YUAN), None);
}

#[test]
fn event_kinds_compare() {
    assert_eq!(CustomEventKind::Wait, CustomEventKind::Wait);
    assert_ne!(CustomEventKind::Bought, CustomEventKind::Sold);
}

#[test]
fn sending_name_is_idempotent() {
    let once = get_market_name_for_sending("Baku stock exchange");
    assert_eq!(get_market_name_for_sending(&once), once);
    let other = get_market_name_for_sending("RCNZ");
    assert_eq!(get_market_name_for_sending(&other), other);
}
