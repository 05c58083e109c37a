use regtest_ledger::reconcile::{
    classify_outputs, compute_fee, funding_outpoint, reconcile, resolve_prevout, ChangePolicy,
    Confirmation, DecodedTx, OutPoint, ReconcileError, TxIn, TxOut,
};

const MINER_ADDR: &str = "bcrt1qminerrewardaddress0000000000000000000";
const TRADER_ADDR: &str = "bcrt1qtraderpaymentaddress000000000000000000";
const CHANGE_ADDR: &str = "bcrt1qminerchangeaddress00000000000000000000";
const PAY_TXID: &str = "4f1c2d3e4f5a6b7c8d9e0f1a2b3c4d5e6f7a8b9c0d1e2f3a4b5c6d7e8f9a0b1c";
const PREV_TXID: &str = "aa11bb22cc33dd44ee55ff6600112233445566778899aabbccddeeff00112233";
const BLOCK_HASH: &str = "0f9188f13cb7b2c71f2a335e3a4fc328bf5beb436012afca590b1a11466e2206";

fn out(addr: Option<&str>, amount: u64) -> TxOut {
    TxOut { address: addr.map(|a| a.to_string()), amount }
}

fn coinbase_tx() -> DecodedTx {
    DecodedTx { inputs: vec![TxIn { prev: None }], outputs: vec![out(Some(MINER_ADDR), 5_000_000_000)] }
}

fn payment_tx() -> DecodedTx {
    DecodedTx {
        inputs: vec![TxIn { prev: Some(OutPoint { txid: PREV_TXID.to_string(), vout: 0 }) }],
        outputs: vec![out(Some(CHANGE_ADDR), 2_999_985_900), out(Some(TRADER_ADDR), 2_000_000_000)],
    }
}

fn confirmed() -> Confirmation {
    Confirmation { block_hash: BLOCK_HASH.to_string(), block_height: 102 }
}

#[test]
fn scenario_payment_of_twenty_coins() {
    let tx = payment_tx();
    let prev = coinbase_tx();
    let conf = confirmed();
    let policy = ChangePolicy::OwnedBySender(vec![true, false]);
    let rec = reconcile(PAY_TXID, Some(&conf), &tx, Some(&prev), TRADER_ADDR, &policy).unwrap();
    assert_eq!(rec.txid, PAY_TXID);
    assert_eq!(rec.input_address, MINER_ADDR);
    assert_eq!(rec.input_amount, 5_000_000_000);
    assert_eq!(rec.payment_address, TRADER_ADDR);
    assert_eq!(rec.payment_amount, 2_000_000_000);
    assert_eq!(rec.change_address, CHANGE_ADDR);
    assert_eq!(rec.change_amount, 2_999_985_900);
    assert_eq!(rec.fee, 14_100);
    assert_eq!(rec.block_height, 102);
    assert_eq!(rec.block_hash, BLOCK_HASH);
}

#[test]
fn balance_law_holds_on_reconciled_record() {
    let rec = reconcile(
        PAY_TXID,
        Some(&confirmed()),
        &payment_tx(),
        Some(&coinbase_tx()),
        TRADER_ADDR,
        &ChangePolicy::NotDestination,
    )
    .unwrap();
    assert_eq!(
        rec.input_amount as u128,
        rec.payment_amount as u128 + rec.change_amount as u128 + rec.fee
    );
}

#[test]
fn unconfirmed_transaction_is_refused() {
    let r = reconcile(PAY_TXID, None, &payment_tx(), Some(&coinbase_tx()), TRADER_ADDR, &ChangePolicy::NotDestination);
    assert_eq!(r.err(), Some(ReconcileError::NotConfirmed));
}

#[test]
fn missing_prior_transaction_is_unresolvable() {
    let r = reconcile(PAY_TXID, Some(&confirmed()), &payment_tx(), None, TRADER_ADDR, &ChangePolicy::NotDestination);
    assert_eq!(r.err(), Some(ReconcileError::PrevOutUnresolvable));
}

#[test]
fn prior_output_index_out_of_range_is_unresolvable() {
    let mut tx = payment_tx();
    tx.inputs[0].prev.as_mut().unwrap().vout = 3;
    let r = reconcile(PAY_TXID, Some(&confirmed()), &tx, Some(&coinbase_tx()), TRADER_ADDR, &ChangePolicy::NotDestination);
    assert_eq!(r.err(), Some(ReconcileError::PrevOutUnresolvable));
}

#[test]
fn prior_output_without_address_is_unresolvable() {
    let prev = DecodedTx { inputs: vec![TxIn { prev: None }], outputs: vec![out(None, 5_000_000_000)] };
    let r = reconcile(PAY_TXID, Some(&confirmed()), &payment_tx(), Some(&prev), TRADER_ADDR, &ChangePolicy::NotDestination);
    assert_eq!(r.err(), Some(ReconcileError::PrevOutUnresolvable));
}

#[test]
fn transaction_without_inputs_is_a_decode_failure() {
    let tx = DecodedTx { inputs: vec![], outputs: vec![out(Some(TRADER_ADDR), 1)] };
    let r = reconcile(PAY_TXID, Some(&confirmed()), &tx, Some(&coinbase_tx()), TRADER_ADDR, &ChangePolicy::NotDestination);
    assert_eq!(r.err(), Some(ReconcileError::DecodeFailure));
    assert_eq!(funding_outpoint(&tx).err(), Some(ReconcileError::DecodeFailure));
}

#[test]
fn coinbase_input_has_no_funding_outpoint() {
    assert_eq!(funding_outpoint(&coinbase_tx()).err(), Some(ReconcileError::PrevOutUnresolvable));
    let p = funding_outpoint(&payment_tx()).unwrap();
    assert_eq!(p.txid, PREV_TXID);
    assert_eq!(p.vout, 0);
}

#[test]
fn resolves_the_spent_output() {
    let prev = coinbase_tx();
    let (addr, amount) = resolve_prevout(Some(&prev), 0).unwrap();
    assert_eq!(addr, MINER_ADDR);
    assert_eq!(amount, 5_000_000_000);
}

#[test]
fn ownership_policy_skips_third_party_outputs() {
    let outs = vec![
        out(Some("bcrt1qthirdparty"), 546),
        out(Some(TRADER_ADDR), 2_000_000_000),
        out(Some(CHANGE_ADDR), 700),
        out(None, 0),
    ];
    let owned = ChangePolicy::OwnedBySender(vec![false, false, true]);
    let c = classify_outputs(&outs, TRADER_ADDR, &owned);
    assert_eq!(c.payment_address, TRADER_ADDR);
    assert_eq!(c.payment_amount, 2_000_000_000);
    assert_eq!(c.change_address, CHANGE_ADDR);
    assert_eq!(c.change_amount, 700);
    let loose = classify_outputs(&outs, TRADER_ADDR, &ChangePolicy::NotDestination);
    assert_eq!(loose.change_address, CHANGE_ADDR);
    let first_only = ChangePolicy::OwnedBySender(vec![true]);
    let c2 = classify_outputs(&outs, TRADER_ADDR, &first_only);
    assert_eq!(c2.change_address, "bcrt1qthirdparty");
    assert_eq!(c2.change_amount, 546);
}

#[test]
fn later_matching_output_wins() {
    let outs = vec![out(Some(TRADER_ADDR), 5), out(Some(TRADER_ADDR), 7)];
    let c = classify_outputs(&outs, TRADER_ADDR, &ChangePolicy::NotDestination);
    assert_eq!(c.payment_amount, 7);
    assert_eq!(c.change_address, "");
    assert_eq!(c.change_amount, 0);
}

#[test]
fn no_outputs_classify_as_empty() {
    let c = classify_outputs(&vec![], TRADER_ADDR, &ChangePolicy::NotDestination);
    assert_eq!(c.payment_address, "");
    assert_eq!(c.payment_amount, 0);
    assert_eq!(c.change_address, "");
    assert_eq!(c.change_amount, 0);
}

#[test]
fn fee_is_the_magnitude_of_the_balance() {
    assert_eq!(compute_fee(5_000_000_000, 2_000_000_000, 2_999_985_900), 14_100);
    assert_eq!(compute_fee(100, 60, 50), 10);
    assert_eq!(compute_fee(7, 7, 0), 0);
    assert_eq!(compute_fee(0, u64::MAX, u64::MAX), 2 * (u64::MAX as u128));
}
