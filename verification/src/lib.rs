//! The matching core of a spot trading venue for one base/quote instrument:
//! exact decimals, the balance ledger, the order book and the engine that
//! turns commands into trades and state updates.
pub mod decimal;
pub mod order;
pub mod balance;
pub mod ledger;
pub mod orderbook;
pub mod matching;
pub mod events;
pub mod engine;
pub mod laws;
