//! Reconciliation of a single regtest payment: amounts, the reconciled
//! record and its text, and the small state machines that drive a node.
pub mod amount;
pub mod reconcile;
pub mod record;
pub mod funding;
pub mod payment;
pub mod provision;
