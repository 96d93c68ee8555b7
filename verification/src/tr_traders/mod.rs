pub mod tr_trader;
pub mod tr_trader_1;
