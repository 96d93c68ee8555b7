use vstd::prelude::*;

verus! {

/// Where the single-market trader stands: it asks the market for a lock to sell,
/// sells with a granted lock, and stops at the first refused lock.
#[derive(Clone, Copy, Debug, PartialEq, Eq, Structural)]
pub enum OneMarketStage {
    /// The program asks the market for a lock to sell and tells whether it was granted.
    Lock,
    /// The program sells with the lock; the outcome does not change what comes next.
    Sell,
    /// Trading has ended.
    Done,
}

/// The stage that follows `stage` answered with `ok`.
pub open spec fn one_market_next(stage: OneMarketStage, ok: bool) -> OneMarketStage {
    match stage {
        OneMarketStage::Lock => if ok { OneMarketStage::Sell } else { OneMarketStage::Done },
        OneMarketStage::Sell => OneMarketStage::Lock,
        OneMarketStage::Done => OneMarketStage::Done,
    }
}

/// The trading loop of the trader that deals with a single market.
pub struct OneMarketRun {
    stage: OneMarketStage,
}

impl OneMarketRun {
    pub closed spec fn stage_view(&self) -> OneMarketStage {
        self.stage
    }

    /// A loop about to ask for its first lock.
    pub fn new() -> (r: Self)
        ensures
            r.stage_view() == OneMarketStage::Lock,
    {
        OneMarketRun { stage: OneMarketStage::Lock }
    }

    /// The stage the loop stands at: what the program does next.
    pub fn stage(&self) -> (st: OneMarketStage)
        ensures
            st == self.stage_view(),
    {
        self.stage
    }

    /// Moves the loop on after the program did what the stage asks, `ok` telling how
    /// it went: a granted lock leads to a sale, a refused one ends trading, and after
    /// a sale, whatever its outcome, the trader asks for the next lock.
    pub fn step(&mut self, ok: bool)
        requires
            old(self).stage_view() != OneMarketStage::Done,
        ensures
            final(self).stage_view() == one_market_next(old(self).stage_view(), ok),
    {
        self.stage = match self.stage {
            OneMarketStage::Lock => if ok { OneMarketStage::Sell } else { OneMarketStage::Done },
            OneMarketStage::Sell => OneMarketStage::Lock,
            OneMarketStage::Done => OneMarketStage::Done,
        };
    }
}

/// Every sale, whatever its outcome, is followed by a request for a new lock; every
/// granted lock by a sale; and a refused lock ends the loop for good.
pub proof fn lemma_sale_then_new_lock(ok: bool)
    ensures
        one_market_next(OneMarketStage::Sell, ok) == OneMarketStage::Lock,
        one_market_next(OneMarketStage::Lock, true) == OneMarketStage::Sell,
        one_market_next(OneMarketStage::Lock, false) == OneMarketStage::Done,
        one_market_next(OneMarketStage::Done, ok) == OneMarketStage::Done,
{
}

/// The loop ends only at a refused lock: a step ends it exactly when it answers a
/// request for a lock with a refusal.
pub proof fn lemma_ends_only_at_refused_lock(stage: OneMarketStage, ok: bool)
    requires
        stage != OneMarketStage::Done,
    ensures
        one_market_next(stage, ok) == OneMarketStage::Done <==> stage == OneMarketStage::Lock && !ok,
{
}

} // verus!
