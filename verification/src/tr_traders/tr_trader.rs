use vstd::prelude::*;
use rand::Rng;
use crate::common::goods::GoodKind;
use crate::common::selection::{
    is_stable_descending_order, lemma_stable_descending_order_unique, lemma_strict_scan_optimal,
    rank_descending, scan_strictly_better, strict_scan,
};

verus! {

/// A number drawn at random below `n`.
///
/// Trusted: calls `rand::thread_rng` and `rand::Rng::gen_range` on `0..n`, which
/// rand documents as sampling the half-open range, and which panics only for an
/// empty range, excluded by `requires`. The contract states only that the result
/// lies in the range; which value comes is left to chance.
#[verifier::external_body]
fn random_below(n: usize) -> (p: usize)
    requires
        n > 0,
    ensures
        p < n,
{
    rand::thread_rng().gen_range(0..n)
}

/// The market at which the rate is extreme, the first of equal ones: the lowest
/// rate when `lower` holds, the highest otherwise. Markets whose rate is not a
/// number are passed over; when no market has one, the last market.
pub open spec fn extreme_market(rates: Seq<Option<i64>>, lower: bool) -> int {
    match strict_scan(rates, None, lower).0 {
        Some(i) => i,
        None => rates.len() - 1,
    }
}

/// The market picked by `extreme_market` is a market of the list; when some market
/// has a rate, the picked one has the extreme rate and no earlier market has it.
pub proof fn lemma_extreme_market_is_extreme(rates: Seq<Option<i64>>, lower: bool)
    requires
        rates.len() > 0,
    ensures
        0 <= extreme_market(rates, lower) < rates.len(),
        (exists|j: int| 0 <= j < rates.len() && (#[trigger] rates[j]) is Some) ==> {
            let r = extreme_market(rates, lower);
            &&& rates[r] is Some
            &&& forall|j: int| 0 <= j < rates.len() && (#[trigger] rates[j]) is Some ==>
                if lower { rates[r]->Some_0 <= rates[j]->Some_0 } else { rates[r]->Some_0 >= rates[j]->Some_0 }
            &&& forall|j: int| 0 <= j < r && (#[trigger] rates[j]) is Some ==> rates[j]->Some_0 != rates[r]->Some_0
        },
{
    lemma_strict_scan_optimal(rates, None, lower);
}

/// Finds the market at which the rate is extreme, as `extreme_market` says.
pub fn extreme_market_index(rates: &Vec<Option<i64>>, lower: bool) -> (i: usize)
    requires
        rates@.len() > 0,
    ensures
        i == extreme_market(rates@, lower),
        i < rates@.len(),
{
    proof {
        lemma_strict_scan_optimal(rates@, None, lower);
    }
    match scan_strictly_better(rates, None, lower) {
        Some(i) => i,
        None => rates.len() - 1,
    }
}

/// What the trader knows of one currency when it looks for the most profitable
/// pair of markets: the keys of the rate at which each market sells it (`buy`) and
/// buys it (`sell`), in the same order of markets, and the key of the spread between
/// the highest selling rate and the lowest buying rate.
pub struct ProfitQuote {
    pub kind: GoodKind,
    pub buy: Vec<Option<i64>>,
    pub sell: Vec<Option<i64>>,
    pub spread: i64,
}

/// The spreads of a list of quotes.
pub open spec fn spreads(quotes: Seq<ProfitQuote>) -> Seq<i64> {
    quotes.map_values(|q: ProfitQuote| q.spread)
}

/// The ranking of a list of keys from the largest down, ties in list order.
pub open spec fn stable_ranking(keys: Seq<i64>) -> Seq<usize> {
    choose|o: Seq<usize>| is_stable_descending_order(keys, o)
}

/// The pair that the trader trades with: the currency ranked `priority` by spread,
/// from the largest down (ties in list order), the market that sells it cheapest and
/// the market that buys it dearest.
pub open spec fn profit_pair(quotes: Seq<ProfitQuote>, priority: int) -> (GoodKind, int, int) {
    let q = quotes[stable_ranking(spreads(quotes))[priority] as int];
    (q.kind, extreme_market(q.buy@, true), extreme_market(q.sell@, false))
}

/// The currency to trade and the indices of the market to buy it from and of the
/// market to sell it to, for the currency ranked `priority` by spread.
pub fn get_max_profit_pair_by_exchange_rate(quotes: &Vec<ProfitQuote>, priority: usize) -> (res: (GoodKind, usize, usize))
    requires
        priority < quotes@.len(),
        forall|i: int| 0 <= i < quotes@.len() ==> (#[trigger] quotes@[i]).buy@.len() > 0 && quotes@[i].sell@.len() > 0,
    ensures
        res.0 == profit_pair(quotes@, priority as int).0,
        res.1 == profit_pair(quotes@, priority as int).1,
        res.2 == profit_pair(quotes@, priority as int).2,
{
    let mut keys: Vec<i64> = Vec::new();
    let mut i: usize = 0;
    while i < quotes.len()
        invariant
            i <= quotes@.len(),
            keys@ == spreads(quotes@).take(i as int),
        decreases quotes@.len() - i,
    {
        keys.push(quotes[i].spread);
        proof {
            assert(keys@ =~= spreads(quotes@).take(i + 1));
        }
        i = i + 1;
    }
    proof {
        assert(keys@ =~= spreads(quotes@));
    }
    let order = rank_descending(&keys);
    proof {
        let o = stable_ranking(keys@);
        assert(is_stable_descending_order(keys@, order@));
        lemma_stable_descending_order_unique(keys@, o, order@);
    }
    let c = &quotes[order[priority]];
    let b = extreme_market_index(&c.buy, true);
    let s = extreme_market_index(&c.sell, false);
    (c.kind, b, s)
}

/// The pair to trade with in one iteration: a currency ranked at random among the
/// three with the largest spreads, the market that sells it cheapest and the market
/// that buys it dearest.
pub fn choose_trade_pair(quotes: &Vec<ProfitQuote>) -> (res: (GoodKind, usize, usize))
    requires
        quotes@.len() >= 3,
        forall|i: int| 0 <= i < quotes@.len() ==> (#[trigger] quotes@[i]).buy@.len() > 0 && quotes@[i].sell@.len() > 0,
    ensures
        exists|p: int| 0 <= p < 3 && res.0 == profit_pair(quotes@, p).0
            && res.1 == profit_pair(quotes@, p).1 && res.2 == profit_pair(quotes@, p).2,
{
    let p = random_below(3);
    get_max_profit_pair_by_exchange_rate(quotes, p)
}

/// What an action the trader performs on a market is called in its register, and
/// the word that joins the good to the trader in a line of the register: a good was
/// bought "from" the trader, and sold "to" it.
pub fn counterpart_word(action: &String) -> (w: String)
    ensures
        w@ == (if action@ == "bought"@ { "from"@ } else { "to"@ }),
{
    if *action == String::from_str("bought") {
        String::from_str("from")
    } else {
        String::from_str("to")
    }
}

/// Where the trader stands in one iteration of its trading loop.
#[derive(Clone, Copy, Debug, PartialEq, Eq, Structural)]
pub enum TrStage {
    /// Start of an iteration: trading ends when the day has reached the number of
    /// trading days.
    Top,
    /// The program chooses the pair to trade and tells whether the market to buy from
    /// holds enough of the good and the purchase would keep the euros below the
    /// initial budget.
    Choose,
    /// The program sizes the purchase and tells whether the quantity is large enough.
    Purchase,
    /// The program asks for a lock to buy and tells whether it was granted.
    LockBuy,
    /// The program buys with the lock.
    Buy,
    /// The program tells whether the market to sell to holds enough euros to pay.
    SellSide,
    /// The program sizes the sale and tells whether the quantity is large enough.
    Sale,
    /// The program asks for a lock to sell and tells whether it was granted.
    LockSell,
    /// The program sells with the lock.
    Sell,
    /// The program lets a day pass on every market.
    Wait,
    /// Trading has ended.
    Done,
}

/// Whether a stage advances the day: each lock asked for, each trade attempted and
/// each day waited.
pub open spec fn tr_ticks(stage: TrStage) -> bool {
    match stage {
        TrStage::LockBuy | TrStage::Buy | TrStage::LockSell | TrStage::Sell | TrStage::Wait => true,
        _ => false,
    }
}

/// The stage that follows `stage` answered with `ok`, the day standing at `day`
/// before the step, for `trading_days` days of trading.
pub open spec fn tr_next_stage(stage: TrStage, trading_days: u32, day: u32, ok: bool) -> TrStage {
    match stage {
        TrStage::Top => if day == trading_days { TrStage::Done } else { TrStage::Choose },
        TrStage::Choose => if ok { TrStage::Purchase } else { TrStage::Wait },
        TrStage::Purchase => if ok { TrStage::LockBuy } else { TrStage::Wait },
        TrStage::LockBuy => if ok { TrStage::Buy } else { TrStage::SellSide },
        TrStage::Buy => TrStage::SellSide,
        TrStage::SellSide => if ok { TrStage::Sale } else { TrStage::Top },
        TrStage::Sale => if ok { TrStage::LockSell } else { TrStage::Wait },
        TrStage::LockSell => if ok { TrStage::Sell } else { TrStage::Top },
        TrStage::Sell => TrStage::Top,
        TrStage::Wait => TrStage::Top,
        TrStage::Done => TrStage::Done,
    }
}

/// The calendar counts days exactly for the operations that take one: each lock
/// asked for, each trade attempted and each day waited advance the day; choosing,
/// sizing and checking do not, nor does the start of an iteration or the end.
pub proof fn lemma_day_counts_market_operations_and_waits(stage: TrStage)
    ensures
        tr_ticks(stage) <==> (stage == TrStage::LockBuy || stage == TrStage::Buy || stage == TrStage::LockSell
            || stage == TrStage::Sell || stage == TrStage::Wait),
{
}

/// Whenever the trader finds a step not worth taking while preparing a trade (the
/// pair cannot be bought, the purchase is too small, the sale is too small), it waits
/// a day on every market; and after waiting it starts the next iteration.
pub proof fn lemma_refusal_waits_a_day(trading_days: u32, day: u32)
    ensures
        tr_next_stage(TrStage::Choose, trading_days, day, false) == TrStage::Wait,
        tr_next_stage(TrStage::Purchase, trading_days, day, false) == TrStage::Wait,
        tr_next_stage(TrStage::Sale, trading_days, day, false) == TrStage::Wait,
        tr_ticks(TrStage::Wait),
        forall|ok: bool| tr_next_stage(TrStage::Wait, trading_days, day, ok) == TrStage::Top,
{
}

/// Once a sale has been sized, whatever the answer, the next step advances the day:
/// either the trader asks for a lock to sell, or it waits.
pub proof fn lemma_sized_sale_advances_day(trading_days: u32, day: u32, ok: bool)
    ensures
        tr_ticks(tr_next_stage(TrStage::Sale, trading_days, day, ok)),
{
}

/// The order of an iteration: a worthwhile pair is sized, a worthwhile purchase is
/// locked, a granted lock is used to buy, and after the purchase, made or refused,
/// the trader turns to the selling side; a selling side that cannot pay ends the
/// iteration; a worthwhile sale is locked, a granted lock is used to sell, and a
/// refused lock to sell or a sale ends the iteration. An iteration starts unless the
/// day has reached the number of trading days, and then trading is done for good.
pub proof fn lemma_iteration_order(trading_days: u32, day: u32, ok: bool)
    ensures
        tr_next_stage(TrStage::Top, trading_days, day, ok) == (if day == trading_days { TrStage::Done } else { TrStage::Choose }),
        tr_next_stage(TrStage::Choose, trading_days, day, true) == TrStage::Purchase,
        tr_next_stage(TrStage::Purchase, trading_days, day, true) == TrStage::LockBuy,
        tr_next_stage(TrStage::LockBuy, trading_days, day, true) == TrStage::Buy,
        tr_next_stage(TrStage::LockBuy, trading_days, day, false) == TrStage::SellSide,
        tr_next_stage(TrStage::Buy, trading_days, day, ok) == TrStage::SellSide,
        tr_next_stage(TrStage::SellSide, trading_days, day, true) == TrStage::Sale,
        tr_next_stage(TrStage::SellSide, trading_days, day, false) == TrStage::Top,
        tr_next_stage(TrStage::Sale, trading_days, day, true) == TrStage::LockSell,
        tr_next_stage(TrStage::LockSell, trading_days, day, true) == TrStage::Sell,
        tr_next_stage(TrStage::LockSell, trading_days, day, false) == TrStage::Top,
        tr_next_stage(TrStage::Sell, trading_days, day, ok) == TrStage::Top,
        tr_next_stage(TrStage::Done, trading_days, day, ok) == TrStage::Done,
{
}

/// Stages an iteration can reach before it has advanced the day, and the stages an
/// iteration can stand at right after them.
pub open spec fn not_yet_ticked(stage: TrStage) -> bool {
    match stage {
        TrStage::Choose | TrStage::Purchase | TrStage::LockBuy | TrStage::Wait | TrStage::Done => true,
        _ => false,
    }
}

/// `stages` is a run of the calendar: each stage follows the one before it, answered
/// with `oks[i]` on day `days[i]`, for `trading_days` days of trading.
pub open spec fn is_run(stages: Seq<TrStage>, oks: Seq<bool>, days: Seq<u32>, trading_days: u32) -> bool {
    &&& stages.len() >= 1
    &&& oks.len() == stages.len() - 1
    &&& days.len() == stages.len() - 1
    &&& forall|i: int| #![trigger oks[i]] 0 <= i < stages.len() - 1
        ==> stages[i + 1] == tr_next_stage(stages[i], trading_days, days[i], oks[i])
}

proof fn lemma_untouched_day_stays_early(stages: Seq<TrStage>, oks: Seq<bool>, days: Seq<u32>, trading_days: u32, k: int)
    requires
        is_run(stages, oks, days, trading_days),
        stages[0] == TrStage::Top,
        1 <= k < stages.len(),
        forall|i: int| 0 <= i < k ==> !tr_ticks(#[trigger] stages[i]),
    ensures
        not_yet_ticked(stages[k]),
    decreases k,
{
    assert(stages[k] == tr_next_stage(stages[k - 1], trading_days, days[k - 1], oks[k - 1]));
    if k > 1 {
        lemma_untouched_day_stays_early(stages, oks, days, trading_days, k - 1);
        assert(!tr_ticks(stages[k - 1]));
    }
}

/// Every iteration advances the day: a run of the calendar that starts at the top of
/// an iteration and comes back to the top passes a stage that advances the day.
pub proof fn lemma_iteration_advances_day(stages: Seq<TrStage>, oks: Seq<bool>, days: Seq<u32>, trading_days: u32)
    requires
        is_run(stages, oks, days, trading_days),
        stages.len() >= 2,
        stages[0] == TrStage::Top,
        stages.last() == TrStage::Top,
    ensures
        exists|i: int| 0 <= i < stages.len() - 1 && tr_ticks(#[trigger] stages[i]),
{
    if !(exists|i: int| 0 <= i < stages.len() - 1 && tr_ticks(#[trigger] stages[i])) {
        lemma_untouched_day_stays_early(stages, oks, days, trading_days, stages.len() - 1);
        assert(stages[stages.len() - 1] == TrStage::Top);
    }
}

/// The trader's calendar: the day it has reached, the number of days it trades for,
/// the stage of the current iteration, and the pair the iteration chose: the
/// currency, the index of the market to buy it from and that of the market to sell
/// it to.
pub struct Schedule {
    day: u32,
    trading_days: u32,
    stage: TrStage,
    kind: GoodKind,
    buy_market: usize,
    sell_market: usize,
}

impl Schedule {
    pub closed spec fn day_view(&self) -> u32 {
        self.day
    }

    pub closed spec fn trading_days_view(&self) -> u32 {
        self.trading_days
    }

    pub closed spec fn stage_view(&self) -> TrStage {
        self.stage
    }

    /// The pair the current iteration chose: currency, market to buy from, market to
    /// sell to.
    pub closed spec fn pair_view(&self) -> (GoodKind, usize, usize) {
        (self.kind, self.buy_market, self.sell_market)
    }

    /// A calendar at day zero, at the start of the first iteration.
    pub fn new(trading_days: u32) -> (s: Self)
        ensures
            s.day_view() == 0,
            s.trading_days_view() == trading_days,
            s.stage_view() == TrStage::Top,
            s.pair_view() == (GoodKind::EUR, 0usize, 0usize),
    {
        Schedule { day: 0, trading_days, stage: TrStage::Top, kind: GoodKind::EUR, buy_market: 0, sell_market: 0 }
    }

    /// Starts trading again for `trading_days` days, from the day already reached.
    pub fn resume(&mut self, trading_days: u32)
        ensures
            final(self).day_view() == old(self).day_view(),
            final(self).trading_days_view() == trading_days,
            final(self).stage_view() == TrStage::Top,
            final(self).pair_view() == old(self).pair_view(),
    {
        self.trading_days = trading_days;
        self.stage = TrStage::Top;
    }

    /// The day the trader has reached.
    pub fn day(&self) -> (d: u32)
        ensures
            d == self.day_view(),
    {
        self.day
    }

    /// The stage the calendar stands at: what the program does next.
    pub fn stage(&self) -> (st: TrStage)
        ensures
            st == self.stage_view(),
    {
        self.stage
    }

    /// The pair the current iteration chose.
    pub fn pair(&self) -> (p: (GoodKind, usize, usize))
        ensures
            p == self.pair_view(),
    {
        (self.kind, self.buy_market, self.sell_market)
    }

    /// Whether the step from the current stage advances the day.
    pub fn ticks(&self) -> (b: bool)
        ensures
            b == tr_ticks(self.stage_view()),
    {
        match self.stage {
            TrStage::LockBuy | TrStage::Buy | TrStage::LockSell | TrStage::Sell | TrStage::Wait => true,
            _ => false,
        }
    }

    /// Chooses the pair of the iteration, as `choose_trade_pair` does, and records it:
    /// the rest of the iteration buys and sells that currency at those markets.
    pub fn choose_pair(&mut self, quotes: &Vec<ProfitQuote>) -> (res: (GoodKind, usize, usize))
        requires
            old(self).stage_view() == TrStage::Choose,
            quotes@.len() >= 3,
            forall|i: int| 0 <= i < quotes@.len() ==> (#[trigger] quotes@[i]).buy@.len() > 0 && quotes@[i].sell@.len() > 0,
        ensures
            exists|p: int| 0 <= p < 3 && res.0 == profit_pair(quotes@, p).0
                && res.1 == profit_pair(quotes@, p).1 && res.2 == profit_pair(quotes@, p).2,
            final(self).pair_view() == res,
            final(self).day_view() == old(self).day_view(),
            final(self).trading_days_view() == old(self).trading_days_view(),
            final(self).stage_view() == old(self).stage_view(),
    {
        let res = choose_trade_pair(quotes);
        self.kind = res.0;
        self.buy_market = res.1;
        self.sell_market = res.2;
        res
    }

    /// Moves the calendar on after the program did what the stage asks, `ok` telling
    /// how it went; the day advances where the stage calls for it, and the pair the
    /// iteration chose stays as it is.
    pub fn step(&mut self, ok: bool)
        requires
            old(self).stage_view() != TrStage::Done,
            tr_ticks(old(self).stage_view()) ==> old(self).day_view() < u32::MAX,
        ensures
            final(self).trading_days_view() == old(self).trading_days_view(),
            final(self).pair_view() == old(self).pair_view(),
            final(self).stage_view() == tr_next_stage(old(self).stage_view(), old(self).trading_days_view(), old(self).day_view(), ok),
            final(self).day_view() == if tr_ticks(old(self).stage_view()) {
                old(self).day_view() + 1
            } else {
                old(self).day_view() as int
            },
    {
        let ticks = self.ticks();
        let next = match self.stage {
            TrStage::Top => if self.day == self.trading_days { TrStage::Done } else { TrStage::Choose },
            TrStage::Choose => if ok { TrStage::Purchase } else { TrStage::Wait },
            TrStage::Purchase => if ok { TrStage::LockBuy } else { TrStage::Wait },
            TrStage::LockBuy => if ok { TrStage::Buy } else { TrStage::SellSide },
            TrStage::Buy => TrStage::SellSide,
            TrStage::SellSide => if ok { TrStage::Sale } else { TrStage::Top },
            TrStage::Sale => if ok { TrStage::LockSell } else { TrStage::Wait },
            TrStage::LockSell => if ok { TrStage::Sell } else { TrStage::Top },
            TrStage::Sell => TrStage::Top,
            TrStage::Wait => TrStage::Top,
            TrStage::Done => TrStage::Done,
        };
        if ticks {
            self.day = self.day + 1;
        }
        self.stage = next;
    }
}

} // verus!
