// Transaction processing for per-client accounts: deposits, withdrawals and
// the dispute / resolve / chargeback cycle, over fixed-point amounts.

pub mod accounts;
pub mod amount;
pub mod decode;
pub mod laws;
pub mod ledger;
pub mod processor;
