pub mod ab_traders;
