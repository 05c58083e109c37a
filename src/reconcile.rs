//! Transaction reconciliation: from a decoded, confirmed transaction and the
//! transaction its funding input spends, derive the payment, the change and
//! the fee.
use vstd::prelude::*;
use crate::record::{ReconciledRecord, RecordView};

verus! {

/// A reference to an output of an earlier transaction.
pub struct OutPoint {
    pub txid: String,
    pub vout: u32,
}

/// An input of a decoded transaction. `prev` is `None` where the node
/// reports no previous output (a coinbase input).
pub struct TxIn {
    pub prev: Option<OutPoint>,
}

/// An output of a decoded transaction: its address where the script has one,
/// and its value in base units.
pub struct TxOut {
    pub address: Option<String>,
    pub amount: u64,
}

/// A transaction as the node decodes it.
pub struct DecodedTx {
    pub inputs: Vec<TxIn>,
    pub outputs: Vec<TxOut>,
}

/// Where a confirmed transaction stands in the chain.
pub struct Confirmation {
    pub block_hash: String,
    pub block_height: u64,
}

/// How outputs that do not pay the destination are attributed.
pub enum ChangePolicy {
    /// Every output with an address other than the destination is change.
    NotDestination,
    /// Only outputs that the sending wallet owns are change; entry `i` tells
    /// whether output `i` is owned (a missing entry counts as not owned).
    OwnedBySender(Vec<bool>),
}

#[derive(Debug, Clone, Copy, PartialEq, Eq, Structural)]
pub enum ReconcileError {
    /// The transaction is in no block yet.
    NotConfirmed,
    /// The output spent by the funding input could not be found or has no address.
    PrevOutUnresolvable,
    /// The transaction could not be decoded, or has no input.
    DecodeFailure,
    /// An address could not be read.
    AddressUnparseable,
}

/// Payment and change as the outputs were classified; an absent class has
/// an empty address and a zero amount.
pub struct Classification {
    pub payment_address: String,
    pub payment_amount: u64,
    pub change_address: String,
    pub change_amount: u64,
}

pub open spec fn pays_to(o: TxOut, destination: Seq<char>) -> bool {
    o.address matches Some(a) && a@ == destination
}

pub open spec fn counts_as_change(
    o: TxOut,
    i: int,
    destination: Seq<char>,
    policy: ChangePolicy,
) -> bool {
    &&& o.address is Some
    &&& !pays_to(o, destination)
    &&& match policy {
        ChangePolicy::NotDestination => true,
        ChangePolicy::OwnedBySender(owned) => i < owned@.len() && owned@[i],
    }
}

/// Index of the last of the first `n` outputs that pays the destination.
pub open spec fn last_payment(outs: Seq<TxOut>, destination: Seq<char>, n: int) -> Option<int>
    decreases n,
{
    if n <= 0 {
        None
    } else if pays_to(outs[n - 1], destination) {
        Some(n - 1)
    } else {
        last_payment(outs, destination, n - 1)
    }
}

/// Index of the last of the first `n` outputs that counts as change.
pub open spec fn last_change(
    outs: Seq<TxOut>,
    destination: Seq<char>,
    policy: ChangePolicy,
    n: int,
) -> Option<int>
    decreases n,
{
    if n <= 0 {
        None
    } else if counts_as_change(outs[n - 1], n - 1, destination, policy) {
        Some(n - 1)
    } else {
        last_change(outs, destination, policy, n - 1)
    }
}

pub open spec fn address_at(outs: Seq<TxOut>, k: Option<int>) -> Seq<char> {
    match k {
        Some(i) => outs[i].address->0@,
        None => Seq::empty(),
    }
}

pub open spec fn amount_at(outs: Seq<TxOut>, k: Option<int>) -> nat {
    match k {
        Some(i) => outs[i].amount as nat,
        None => 0,
    }
}

/// The fee: the magnitude of inputs less outputs.
pub open spec fn fee_of(input: nat, payment: nat, change: nat) -> nat {
    let d = input - payment - change;
    if d >= 0 {
        d as nat
    } else {
        (-d) as nat
    }
}

/// The output that the first input spends, when the transaction has an input
/// that names one.
pub open spec fn funding_prev(tx: DecodedTx) -> Option<OutPoint> {
    if tx.inputs@.len() == 0 {
        None
    } else {
        tx.inputs@[0].prev
    }
}

/// What `reconcile` produces, or the first error that stops it.
pub open spec fn reconcile_spec(
    txid: Seq<char>,
    confirmation: Option<Confirmation>,
    tx: DecodedTx,
    prev_tx: Option<DecodedTx>,
    destination: Seq<char>,
    policy: ChangePolicy,
) -> Result<RecordView, ReconcileError> {
    if confirmation is None {
        Err(ReconcileError::NotConfirmed)
    } else if tx.inputs@.len() == 0 {
        Err(ReconcileError::DecodeFailure)
    } else if funding_prev(tx) is None || prev_tx is None || funding_prev(tx)->0.vout
        >= prev_tx->0.outputs@.len() || prev_tx->0.outputs@[funding_prev(
        tx,
    )->0.vout as int].address is None {
        Err(ReconcileError::PrevOutUnresolvable)
    } else {
        let c = confirmation->0;
        let spent = prev_tx->0.outputs@[funding_prev(tx)->0.vout as int];
        let outs = tx.outputs@;
        let p = last_payment(outs, destination, outs.len() as int);
        let k = last_change(outs, destination, policy, outs.len() as int);
        Ok(
            RecordView {
                txid,
                input_address: spent.address->0@,
                input_amount: spent.amount as nat,
                payment_address: address_at(outs, p),
                payment_amount: amount_at(outs, p),
                change_address: address_at(outs, k),
                change_amount: amount_at(outs, k),
                fee: fee_of(spent.amount as nat, amount_at(outs, p), amount_at(outs, k)),
                block_height: c.block_height as nat,
                block_hash: c.block_hash@,
            },
        )
    }
}

/// The previous output that the transaction's first input spends: the one
/// that a caller must fetch before `reconcile`.
pub fn funding_outpoint(tx: &DecodedTx) -> (r: Result<OutPoint, ReconcileError>)
    ensures
        tx.inputs@.len() == 0 ==> r == Err::<OutPoint, _>(ReconcileError::DecodeFailure),
        tx.inputs@.len() > 0 && funding_prev(*tx) is None ==> r == Err::<OutPoint, _>(
            ReconcileError::PrevOutUnresolvable,
        ),
        r matches Ok(p) ==> funding_prev(*tx) matches Some(q) && p.txid@ == q.txid@ && p.vout
            == q.vout,
        r is Ok <==> funding_prev(*tx) is Some,
{
    if tx.inputs.len() == 0 {
        return Err(ReconcileError::DecodeFailure);
    }
    match &tx.inputs[0].prev {
        None => Err(ReconcileError::PrevOutUnresolvable),
        Some(p) => Ok(OutPoint { txid: p.txid.clone(), vout: p.vout }),
    }
}

/// Address and amount of output `vout` of the spent transaction, which must
/// be known and have an address.
pub fn resolve_prevout(prev_tx: Option<&DecodedTx>, vout: u32) -> (r: Result<
    (String, u64),
    ReconcileError,
>)
    ensures
        r is Ok <==> (prev_tx matches Some(p) && vout < p.outputs@.len()
            && p.outputs@[vout as int].address is Some),
        r is Err ==> r == Err::<(String, u64), _>(ReconcileError::PrevOutUnresolvable),
        r matches Ok(v) ==> ({
            let o = prev_tx->0.outputs@[vout as int];
            v.0@ == o.address->0@ && v.1 == o.amount
        }),
{
    match prev_tx {
        None => Err(ReconcileError::PrevOutUnresolvable),
        Some(p) => {
            if (vout as usize) >= p.outputs.len() {
                return Err(ReconcileError::PrevOutUnresolvable);
            }
            let o = &p.outputs[vout as usize];
            match &o.address {
                None => Err(ReconcileError::PrevOutUnresolvable),
                Some(a) => Ok((a.clone(), o.amount)),
            }
        },
    }
}

fn is_change_at(policy: &ChangePolicy, i: usize) -> (r: bool)
    ensures
        r == match *policy {
            ChangePolicy::NotDestination => true,
            ChangePolicy::OwnedBySender(owned) => i < owned@.len() && owned@[i as int],
        },
{
    match policy {
        ChangePolicy::NotDestination => true,
        ChangePolicy::OwnedBySender(owned) => i < owned.len() && owned[i],
    }
}

/// Classifies every output: one whose address is the destination is the
/// payment, one that the policy attributes to the sender is the change. When
/// several outputs fall in one class, the last of them is kept.
pub fn classify_outputs(outputs: &Vec<TxOut>, destination: &str, policy: &ChangePolicy) -> (r:
    Classification)
    ensures
        ({
            let outs = outputs@;
            let p = last_payment(outs, destination@, outs.len() as int);
            let k = last_change(outs, destination@, *policy, outs.len() as int);
            &&& r.payment_address@ == address_at(outs, p)
            &&& r.payment_amount as nat == amount_at(outs, p)
            &&& r.change_address@ == address_at(outs, k)
            &&& r.change_amount as nat == amount_at(outs, k)
        }),
{
    let ghost outs = outputs@;
    let ghost dest = destination@;
    let target = destination.to_owned();
    let mut r = Classification {
        payment_address: String::new(),
        payment_amount: 0,
        change_address: String::new(),
        change_amount: 0,
    };
    let mut i: usize = 0;
    while i < outputs.len()
        invariant
            0 <= i <= outs.len(),
            outs == outputs@,
            target@ == dest,
            r.payment_address@ == address_at(outs, last_payment(outs, dest, i as int)),
            r.payment_amount as nat == amount_at(outs, last_payment(outs, dest, i as int)),
            r.change_address@ == address_at(outs, last_change(outs, dest, *policy, i as int)),
            r.change_amount as nat == amount_at(outs, last_change(outs, dest, *policy, i as int)),
        decreases outputs.len() - i,
    {
        let o = &outputs[i];
        match &o.address {
            None => {},
            Some(a) => {
                if *a == target {
                    r.payment_address = a.clone();
                    r.payment_amount = o.amount;
                } else if is_change_at(policy, i) {
                    r.change_address = a.clone();
                    r.change_amount = o.amount;
                }
            },
        }
        i = i + 1;
    }
    r
}

/// The fee of a transaction with one funding input: the magnitude of the
/// input less the payment and the change.
pub fn compute_fee(input: u64, payment: u64, change: u64) -> (r: u128)
    ensures
        r as nat == fee_of(input as nat, payment as nat, change as nat),
{
    let spent = input as u128;
    let paid = payment as u128 + change as u128;
    if spent >= paid {
        spent - paid
    } else {
        paid - spent
    }
}

/// Reconciles a confirmed payment. `confirmation` is where the node placed
/// the transaction (`None` while it is unconfirmed); `tx` is the decoded
/// transaction; `prev_tx` the decoded transaction that its first input spends
/// (`None` where it could not be fetched or decoded); `destination` the
/// address the payment was sent to.
///
/// Fails with `NotConfirmed` before anything else, with `DecodeFailure` when
/// the transaction has no input, and with `PrevOutUnresolvable` when the spent
/// output cannot be found or has no address. On success the record's fee is
/// the magnitude of the input amount less the payment and change amounts.
pub fn reconcile(
    txid: &str,
    confirmation: Option<&Confirmation>,
    tx: &DecodedTx,
    prev_tx: Option<&DecodedTx>,
    destination: &str,
    policy: &ChangePolicy,
) -> (r: Result<ReconciledRecord, ReconcileError>)
    ensures
        ({
            let c = match confirmation {
                Some(c) => Some(*c),
                None => None,
            };
            let p = match prev_tx {
                Some(p) => Some(*p),
                None => None,
            };
            match (r, reconcile_spec(txid@, c, *tx, p, destination@, *policy)) {
                (Ok(rec), Ok(v)) => rec@ == v,
                (Err(e), Err(f)) => e == f,
                _ => false,
            }
        }),
        r matches Ok(rec) ==> rec@.fee == fee_of(
            rec@.input_amount,
            rec@.payment_amount,
            rec@.change_amount,
        ),
        confirmation is None ==> r == Err::<ReconciledRecord, _>(ReconcileError::NotConfirmed),
{
    let conf = match confirmation {
        None => {
            return Err(ReconcileError::NotConfirmed);
        },
        Some(c) => c,
    };
    let prev = match funding_outpoint(tx) {
        Err(e) => {
            return Err(e);
        },
        Ok(p) => p,
    };
    let (input_address, input_amount) = match resolve_prevout(prev_tx, prev.vout) {
        Err(e) => {
            return Err(e);
        },
        Ok(v) => v,
    };
    let c = classify_outputs(&tx.outputs, destination, policy);
    let fee = compute_fee(input_amount, c.payment_amount, c.change_amount);
    Ok(
        ReconciledRecord {
            txid: txid.to_owned(),
            input_address,
            input_amount,
            payment_address: c.payment_address,
            payment_amount: c.payment_amount,
            change_address: c.change_address,
            change_amount: c.change_amount,
            fee,
            block_height: conf.block_height,
            block_hash: conf.block_hash.clone(),
        },
    )
}

} // verus!
