use regtest_ledger::funding::{FundingAction, FundingEngine, COINBASE_MATURITY};
use regtest_ledger::payment::{accept_payment, PaymentError, PaymentRequest};
use regtest_ledger::provision::{
    after_create, after_load, contains, create_reply_from_message, load_reply_from_code,
    CreateReply, LoadReply, ProvisionError, ProvisionPhase,
};

/// A node's view of one wallet, answering as a node does when nothing fails.
struct FakeWallet {
    exists: bool,
    loaded: bool,
}

impl FakeWallet {
    fn load(&mut self) -> LoadReply {
        if self.loaded {
            LoadReply::AlreadyLoaded
        } else if self.exists {
            self.loaded = true;
            LoadReply::Loaded
        } else {
            LoadReply::NotFound
        }
    }

    fn create(&mut self) -> CreateReply {
        if self.exists {
            CreateReply::AlreadyExists
        } else {
            self.exists = true;
            self.loaded = true;
            CreateReply::Created
        }
    }

    fn ensure(&mut self) -> ProvisionPhase {
        match after_load(self.load()) {
            ProvisionPhase::Creating => after_create(self.create()),
            p => p,
        }
    }
}

#[test]
fn provisioning_twice_succeeds_both_times() {
    for (exists, loaded) in [(false, false), (true, false), (true, true)] {
        let mut w = FakeWallet { exists, loaded };
        assert_eq!(w.ensure(), ProvisionPhase::Ready);
        assert!(w.loaded);
        assert_eq!(w.ensure(), ProvisionPhase::Ready);
        assert!(w.loaded && w.exists);
    }
}

#[test]
fn provisioning_failures_are_fatal() {
    assert_eq!(after_load(LoadReply::Failed), ProvisionPhase::Failed(ProvisionError::LoadFailed));
    assert_eq!(after_create(CreateReply::Failed), ProvisionPhase::Failed(ProvisionError::CreateFailed));
    assert_eq!(after_load(LoadReply::NotFound), ProvisionPhase::Creating);
}

#[test]
fn reads_node_wallet_errors() {
    assert_eq!(load_reply_from_code(-18), LoadReply::NotFound);
    assert_eq!(load_reply_from_code(-35), LoadReply::AlreadyLoaded);
    assert_eq!(load_reply_from_code(-4), LoadReply::Failed);
    assert_eq!(
        create_reply_from_message("Wallet file verification failed. Failed to create database path '/x/Miner'. Database already exists."),
        CreateReply::AlreadyExists
    );
    assert_eq!(create_reply_from_message("Permission denied"), CreateReply::Failed);
    assert!(contains("abc", ""));
    assert!(contains("abc", "bc"));
    assert!(!contains("ab", "abc"));
}

#[test]
fn funding_mines_until_rewards_mature() {
    let reward: u64 = 5_000_000_000;
    let mut engine = FundingEngine::new(0);
    let mut height: u64 = 0;
    let outcome = loop {
        let balance = if height > COINBASE_MATURITY { (height - COINBASE_MATURITY) * reward } else { 0 };
        match engine.on_balance(balance) {
            FundingAction::MineBlock => {
                height += 1;
                engine.on_block_mined();
            }
            done => break done,
        }
    };
    assert_eq!(outcome, FundingAction::Done { blocks_mined: 101, balance: reward });
}

#[test]
fn funding_respects_threshold() {
    let engine = FundingEngine { threshold: 100, blocks_mined: 7 };
    assert_eq!(engine.on_balance(100), FundingAction::MineBlock);
    assert_eq!(engine.on_balance(101), FundingAction::Done { blocks_mined: 7, balance: 101 });
}

#[test]
fn payment_request_leaves_options_to_node() {
    let req = PaymentRequest::new("bcrt1qtrader".to_string(), 2_000_000_000);
    assert_eq!(req.address, "bcrt1qtrader");
    assert_eq!(req.amount, 2_000_000_000);
    assert!(req.conf_target.is_none() && req.estimate_mode.is_none());
    assert!(req.fee_rate.is_none() && req.options.is_none());
}

#[test]
fn payment_answer_is_checked() {
    let id = "4f1c2d3e4f5a6b7c8d9e0f1a2b3c4d5e6f7a8b9c0d1e2f3a4b5c6d7e8f9a0b1c";
    assert_eq!(accept_payment(true, id.to_string()), Ok(id.to_string()));
    assert_eq!(accept_payment(false, id.to_string()), Err(PaymentError::Incomplete));
    assert_eq!(accept_payment(false, String::new()), Err(PaymentError::Incomplete));
    assert_eq!(accept_payment(true, id.to_uppercase()), Ok(id.to_uppercase()));
    assert_eq!(accept_payment(true, String::new()), Ok(String::new()));
}
