pub mod base;
pub mod btc;
pub mod cosmos_bank;
pub mod cosmwasm_smart_query;
pub mod eth;
