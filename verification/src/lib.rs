//! A two-phase payment protocol: a payment service that authorizes amounts
//! against a ceiling, hands out single-use authorization tokens and redeems
//! them for consecutive transaction ids, and a checkout orchestrator that
//! drives one authorization and one completion per purchase.

pub mod checkout;
pub mod decimal;
pub mod laws;
pub mod messages;
pub mod model;
pub mod request;
pub mod service;
pub mod token;
