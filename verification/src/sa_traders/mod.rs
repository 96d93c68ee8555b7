pub mod sa_trader_1;
