//! One payment from a wallet to an address: the request handed to the node
//! and the check of its answer.
use vstd::prelude::*;

verus! {

/// A single-recipient payment. The optional fields are the node's
/// confirmation target, fee estimation mode, explicit fee rate and options
/// object; `None` leaves each to the node's default.
pub struct PaymentRequest {
    pub address: String,
    pub amount: u64,
    pub conf_target: Option<u32>,
    pub estimate_mode: Option<String>,
    pub fee_rate: Option<u64>,
    pub options: Option<String>,
}

#[derive(Debug, Clone, Copy, PartialEq, Eq, Structural)]
pub enum PaymentError {
    /// The node sent the payment but reports it incomplete (more signers needed).
    Incomplete,
}

impl PaymentRequest {
    /// A payment of `amount` base units to `address`, with every optional
    /// parameter left to the node.
    pub fn new(address: String, amount: u64) -> (r: PaymentRequest)
        ensures
            r.address == address,
            r.amount == amount,
            r.conf_target is None,
            r.estimate_mode is None,
            r.fee_rate is None,
            r.options is None,
    {
        PaymentRequest {
            address,
            amount,
            conf_target: None,
            estimate_mode: None,
            fee_rate: None,
            options: None,
        }
    }
}

/// Checks the node's answer to a payment: a complete transaction gives the
/// node's id as it came; an incomplete one is an error.
pub fn accept_payment(complete: bool, txid: String) -> (r: Result<String, PaymentError>)
    ensures
        !complete ==> r == Err::<String, _>(PaymentError::Incomplete),
        complete ==> (r matches Ok(t) && t@ == txid@),
{
    if !complete {
        return Err(PaymentError::Incomplete);
    }
    Ok(txid)
}

} // verus!
