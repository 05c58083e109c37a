//! The funding loop's decisions: mine one block at a time until the wallet's
//! spendable balance exceeds a threshold.
use vstd::prelude::*;

verus! {

/// Confirmations a block reward needs before it can be spent.
pub const COINBASE_MATURITY: u64 = 100;

/// What the caller does next.
#[derive(Debug, Clone, Copy, PartialEq, Eq, Structural)]
pub enum FundingAction {
    /// Mine one block to the mining address, then report the new balance.
    MineBlock,
    /// The balance exceeds the threshold; the loop is over.
    Done { blocks_mined: u64, balance: u64 },
}

/// State of the funding loop: the balance it must exceed and the blocks it
/// has mined itself.
pub struct FundingEngine {
    pub threshold: u64,
    pub blocks_mined: u64,
}

pub open spec fn is_funded(threshold: nat, balance: nat) -> bool {
    balance > threshold
}

impl FundingEngine {
    /// A loop that has mined nothing yet. A threshold of zero asks for any
    /// positive balance.
    pub fn new(threshold: u64) -> (r: FundingEngine)
        ensures
            r.threshold == threshold,
            r.blocks_mined == 0,
    {
        FundingEngine { threshold, blocks_mined: 0 }
    }

    /// Decides on a freshly queried balance (in base units).
    pub fn on_balance(&self, balance: u64) -> (r: FundingAction)
        ensures
            is_funded(self.threshold as nat, balance as nat) ==> r == (FundingAction::Done {
                blocks_mined: self.blocks_mined,
                balance,
            }),
            !is_funded(self.threshold as nat, balance as nat) ==> r == FundingAction::MineBlock,
    {
        if balance > self.threshold {
            FundingAction::Done { blocks_mined: self.blocks_mined, balance }
        } else {
            FundingAction::MineBlock
        }
    }

    /// Counts a block that the caller mined.
    pub fn on_block_mined(&mut self)
        requires
            old(self).blocks_mined < u64::MAX,
        ensures
            final(self).blocks_mined == old(self).blocks_mined + 1,
            final(self).threshold == old(self).threshold,
    {
        self.blocks_mined = self.blocks_mined + 1;
    }
}

/// Spendable balance of a wallet that received every block reward of a chain
/// `height` blocks long, one reward of `reward` per block: a reward matures
/// after `COINBASE_MATURITY` further blocks.
pub open spec fn spendable_at(height: nat, reward: nat) -> nat {
    if height > COINBASE_MATURITY {
        ((height - COINBASE_MATURITY) * reward) as nat
    } else {
        0
    }
}

/// The blocks that the loop mines when it starts at chain height `height`,
/// if it stops within `fuel` blocks.
pub open spec fn blocks_until_funded(height: nat, threshold: nat, reward: nat, fuel: nat) -> Option<
    nat,
>
    decreases fuel,
{
    if is_funded(threshold, spendable_at(height, reward)) {
        Some(0)
    } else if fuel == 0 {
        None
    } else {
        match blocks_until_funded(height + 1, threshold, reward, (fuel - 1) as nat) {
            Some(k) => Some(k + 1),
            None => None,
        }
    }
}

proof fn lemma_stops_by(height: nat, threshold: nat, reward: nat, fuel: nat, j: nat)
    requires
        j <= fuel,
        is_funded(threshold, spendable_at(height + j, reward)),
    ensures
        blocks_until_funded(height, threshold, reward, fuel) matches Some(k) && k <= j,
    decreases j,
{
    if !is_funded(threshold, spendable_at(height, reward)) {
        assert(j > 0);
        lemma_stops_by(height + 1, threshold, reward, (fuel - 1) as nat, (j - 1) as nat);
    }
}

proof fn lemma_fresh_chain(height: nat, reward: nat)
    requires
        reward > 0,
        height <= COINBASE_MATURITY + 1,
    ensures
        blocks_until_funded(height, 0, reward, (COINBASE_MATURITY + 1 - height) as nat) == Some(
            (COINBASE_MATURITY + 1 - height) as nat,
        ),
    decreases COINBASE_MATURITY + 1 - height,
{
    if height < COINBASE_MATURITY + 1 {
        lemma_fresh_chain(height + 1, reward);
    } else {
        assert((height - COINBASE_MATURITY) * reward == reward) by (nonlinear_arith)
            requires
                height - COINBASE_MATURITY == 1,
        ;
    }
}

/// The funding loop terminates: mining rewards of `reward > 0` per block,
/// from any chain height and for any threshold, the loop stops within the
/// blocks that maturity needs plus `threshold / reward + 1`, with a balance
/// above the threshold.
pub proof fn funding_terminates(height: nat, threshold: nat, reward: nat)
    requires
        reward > 0,
    ensures
        ({
            let bound = (COINBASE_MATURITY + 1 + threshold / reward) as nat;
            blocks_until_funded(height, threshold, reward, bound) matches Some(k) && k <= bound
                && is_funded(threshold, spendable_at(height + k, reward))
        }),
{
    let bound = (COINBASE_MATURITY + 1 + threshold / reward) as nat;
    let j: nat = if height > COINBASE_MATURITY {
        threshold / reward
    } else {
        (COINBASE_MATURITY + 1 - height + threshold / reward) as nat
    };
    assert(height + j - COINBASE_MATURITY >= 1 + threshold / reward);
    assert(spendable_at(height + j, reward) > threshold) by (nonlinear_arith)
        requires
            reward > 0,
            height + j - COINBASE_MATURITY >= 1 + threshold / reward,
            height + j > COINBASE_MATURITY,
            spendable_at(height + j, reward) == (height + j - COINBASE_MATURITY) * reward,
    ;
    lemma_stops_by(height, threshold, reward, bound, j);
    lemma_funded_when_stopped(height, threshold, reward, bound);
}

proof fn lemma_funded_when_stopped(height: nat, threshold: nat, reward: nat, fuel: nat)
    ensures
        blocks_until_funded(height, threshold, reward, fuel) matches Some(k) ==> k <= fuel
            && is_funded(threshold, spendable_at(height + k, reward)),
    decreases fuel,
{
    if fuel > 0 {
        lemma_funded_when_stopped(height + 1, threshold, reward, (fuel - 1) as nat);
    }
}

/// From an empty chain and a zero threshold, the loop mines exactly
/// `COINBASE_MATURITY + 1` blocks, after which the balance is one reward.
pub proof fn fresh_chain_needs_maturity_plus_one(reward: nat)
    requires
        reward > 0,
    ensures
        blocks_until_funded(0, 0, reward, (COINBASE_MATURITY + 1) as nat) == Some(
            (COINBASE_MATURITY + 1) as nat,
        ),
        spendable_at((COINBASE_MATURITY + 1) as nat, reward) == reward,
{
    lemma_fresh_chain(0, reward);
    assert(((COINBASE_MATURITY + 1) - COINBASE_MATURITY) * reward == reward);
}

} // verus!
