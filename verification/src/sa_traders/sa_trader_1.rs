use vstd::prelude::*;
use crate::common::goods::{last_index_of_kind, last_of_kind, GoodKind};
use crate::common::selection::{lemma_strict_scan_optimal, scan_strictly_better, strict_scan};

verus! {

/// The three markets the trader deals with.
#[derive(Clone, Copy, Debug, PartialEq, Eq, Structural)]
pub enum MarketSlot {
    Bfb,
    Rcnz,
    Zse,
}

/// The market that a name designates: "RCNZ" and "ZSE" name those markets, any other
/// name the Baku stock exchange.
pub open spec fn slot_of(name: Seq<char>) -> MarketSlot {
    if name == "RCNZ"@ {
        MarketSlot::Rcnz
    } else if name == "ZSE"@ {
        MarketSlot::Zse
    } else {
        MarketSlot::Bfb
    }
}

/// Finds the market that `market_name` designates.
pub fn market_slot(market_name: &str) -> (slot: MarketSlot)
    ensures
        slot == slot_of(market_name@),
{
    let name = market_name.to_owned();
    if name == String::from_str("RCNZ") {
        MarketSlot::Rcnz
    } else if name == String::from_str("ZSE") {
        MarketSlot::Zse
    } else {
        MarketSlot::Bfb
    }
}

/// Where the quantity of a currency that the trader holds is kept.
#[derive(Clone, Copy, Debug, PartialEq, Eq, Structural)]
pub enum QuantitySource {
    /// The euros are the trader's cash.
    Cash,
    /// The good at this position of the trader's list of goods.
    Good(usize),
    /// The trader holds none of it.
    Nothing,
}

/// Where the trader finds how much of `goodkind` it holds, given the kinds of its
/// list of goods: the cash for the euro, otherwise the last good of that kind.
pub fn get_trader_goodquantity(kinds: &Vec<GoodKind>, goodkind: GoodKind) -> (src: QuantitySource)
    ensures
        goodkind == GoodKind::EUR ==> src == QuantitySource::Cash,
        goodkind != GoodKind::EUR ==> match (src, last_of_kind(kinds@, goodkind)) {
            (QuantitySource::Good(i), Some(j)) => i == j,
            (QuantitySource::Nothing, None) => true,
            _ => false,
        },
{
    if goodkind == GoodKind::EUR {
        QuantitySource::Cash
    } else {
        match last_index_of_kind(kinds, goodkind) {
            Some(i) => QuantitySource::Good(i),
            None => QuantitySource::Nothing,
        }
    }
}

/// The market to buy from, given the keys of the prices that the three markets ask
/// (`None` for a market that answered with an error) and the key of the largest
/// price: the first market whose price is strictly below every earlier one and below
/// the largest price; `None` when no market asks less than the largest price.
pub fn pick_buy_market(prices: &Vec<Option<i64>>, max_price: i64) -> (res: Option<usize>)
    ensures
        match (res, strict_scan(prices@, Some(max_price), true).0) {
            (None, None) => true,
            (Some(i), Some(j)) => i == j,
            _ => false,
        },
{
    scan_strictly_better(prices, Some(max_price), true)
}

/// The market to sell to, given the keys of the prices that the three markets offer
/// (`None` for a market that answered with an error): the first market whose offer
/// is strictly above every earlier one and above zero; `None` when no market offers
/// more than zero.
pub fn pick_sell_market(prices: &Vec<Option<i64>>) -> (res: Option<usize>)
    ensures
        match (res, strict_scan(prices@, Some(0), false).0) {
            (None, None) => true,
            (Some(i), Some(j)) => i == j,
            _ => false,
        },
{
    scan_strictly_better(prices, Some(0), false)
}

/// Whether the cheapest-good search replaces the price it holds by `p`: when it
/// holds a negative price (the start), or a price above `p`. A price that is not a
/// number (`None`) is above nothing, and once held is never replaced.
pub open spec fn cheapest_replaces(held: Option<i64>, p: Option<i64>) -> bool {
    match held {
        Some(h) => h < 0 || (p is Some && h > p->Some_0),
        None => false,
    }
}

/// The scan of the trader's goods for the cheapest purchase, starting from the price
/// `start`: the position it ends on, if it moved, and the price it holds.
pub open spec fn cheapest_scan(prices: Seq<Option<i64>>, start: Option<i64>) -> (Option<int>, Option<i64>)
    decreases prices.len(),
{
    if prices.len() == 0 {
        (None, start)
    } else {
        let prev = cheapest_scan(prices.drop_last(), start);
        if cheapest_replaces(prev.1, prices.last()) {
            (Some(prices.len() - 1), prices.last())
        } else {
            prev
        }
    }
}

/// The position, among the trader's goods, of the good that is cheapest to buy
/// from a market, given the keys of the prices that the market asks for each (`None`
/// for a price that is not a number) and the key of the negative price that the
/// search starts from; `None` when the search never moves.
pub fn pick_cheapest_good(prices: &Vec<Option<i64>>, start: Option<i64>) -> (res: Option<usize>)
    ensures
        match (res, cheapest_scan(prices@, start).0) {
            (None, None) => true,
            (Some(i), Some(j)) => i == j,
            _ => false,
        },
{
    let mut held_index: Option<usize> = None;
    let mut held: Option<i64> = start;
    let mut i: usize = 0;
    while i < prices.len()
        invariant
            i <= prices@.len(),
            held == cheapest_scan(prices@.take(i as int), start).1,
            match (held_index, cheapest_scan(prices@.take(i as int), start).0) {
                (None, None) => true,
                (Some(a), Some(j)) => a == j,
                _ => false,
            },
        decreases prices@.len() - i,
    {
        proof {
            let next = prices@.take(i + 1);
            assert(next.drop_last() =~= prices@.take(i as int));
            assert(next.last() == prices@[i as int]);
        }
        let p = prices[i];
        let replace = match held {
            Some(h) => h < 0 || match p {
                Some(q) => h > q,
                None => false,
            },
            None => false,
        };
        if replace {
            held_index = Some(i);
            held = p;
        }
        i = i + 1;
    }
    proof {
        assert(prices@.take(prices@.len() as int) =~= prices@);
    }
    held_index
}

/// The market picked for buying asks less than the largest price, no market asks
/// less, and no earlier market asks as little; when none is picked, no market asks
/// less than the largest price.
pub proof fn lemma_buy_market_is_cheapest(prices: Seq<Option<i64>>, max_price: i64)
    ensures
        strict_scan(prices, Some(max_price), true).0 matches Some(i) ==> {
            &&& 0 <= i < prices.len()
            &&& prices[i] is Some
            &&& prices[i]->Some_0 < max_price
            &&& forall|j: int| 0 <= j < prices.len() && (#[trigger] prices[j]) is Some ==> prices[i]->Some_0 <= prices[j]->Some_0
            &&& forall|j: int| 0 <= j < i && (#[trigger] prices[j]) is Some ==> prices[i]->Some_0 < prices[j]->Some_0
        },
        strict_scan(prices, Some(max_price), true).0 is None ==>
            forall|j: int| 0 <= j < prices.len() && (#[trigger] prices[j]) is Some ==> prices[j]->Some_0 >= max_price,
{
    lemma_strict_scan_optimal(prices, Some(max_price), true);
}

/// The market picked for selling offers more than zero, no market offers more, and
/// no earlier market offers as much; when none is picked, no market offers more
/// than zero.
pub proof fn lemma_sell_market_pays_most(prices: Seq<Option<i64>>)
    ensures
        strict_scan(prices, Some(0), false).0 matches Some(i) ==> {
            &&& 0 <= i < prices.len()
            &&& prices[i] is Some
            &&& prices[i]->Some_0 > 0
            &&& forall|j: int| 0 <= j < prices.len() && (#[trigger] prices[j]) is Some ==> prices[i]->Some_0 >= prices[j]->Some_0
            &&& forall|j: int| 0 <= j < i && (#[trigger] prices[j]) is Some ==> prices[i]->Some_0 > prices[j]->Some_0
        },
        strict_scan(prices, Some(0), false).0 is None ==>
            forall|j: int| 0 <= j < prices.len() && (#[trigger] prices[j]) is Some ==> prices[j]->Some_0 <= 0,
{
    lemma_strict_scan_optimal(prices, Some(0), false);
}

/// When the search for the cheapest good starts from a negative price and every
/// good has a price that is a number and not negative, it picks the first good with
/// the lowest price.
pub proof fn lemma_cheapest_good_is_first_lowest(prices: Seq<Option<i64>>, start: i64)
    requires
        start < 0,
        prices.len() > 0,
        forall|j: int| 0 <= j < prices.len() ==> (#[trigger] prices[j]) is Some && prices[j]->Some_0 >= 0,
    ensures
        cheapest_scan(prices, Some(start)).0 matches Some(i) && {
            &&& 0 <= i < prices.len()
            &&& forall|j: int| 0 <= j < prices.len() ==> prices[i]->Some_0 <= (#[trigger] prices[j])->Some_0
            &&& forall|j: int| 0 <= j < i ==> prices[i]->Some_0 < (#[trigger] prices[j])->Some_0
        },
        cheapest_scan(prices, Some(start)).1 == prices[cheapest_scan(prices, Some(start)).0->Some_0],
    decreases prices.len(),
{
    let d = prices.drop_last();
    let n = prices.len() - 1;
    assert(prices[n] is Some);
    if d.len() > 0 {
        assert forall|j: int| 0 <= j < d.len() implies (#[trigger] d[j]) is Some && d[j]->Some_0 >= 0 by {
            assert(d[j] == prices[j]);
        }
        lemma_cheapest_good_is_first_lowest(d, start);
        let h = cheapest_scan(d, Some(start)).0->Some_0;
        assert(d[h] == prices[h]);
        let r = cheapest_scan(prices, Some(start)).0->Some_0;
        assert forall|j: int| 0 <= j < prices.len() implies prices[r]->Some_0 <= (#[trigger] prices[j])->Some_0 by {
            if j < n {
                assert(d[j] == prices[j]);
            }
        }
        assert forall|j: int| 0 <= j < r implies prices[r]->Some_0 < (#[trigger] prices[j])->Some_0 by {
            if j < n {
                assert(d[j] == prices[j]);
            }
        }
    }
}

/// The trader's name and its clock: the number of the next event it reports, which
/// starts at one and advances with each granted lock, each completed trade and each
/// day it waits.
#[allow(non_camel_case_types)]
pub struct Trader_SA {
    name: String,
    time: u32,
}

impl Trader_SA {
    pub closed spec fn name_view(&self) -> Seq<char> {
        self.name@
    }

    pub closed spec fn time_view(&self) -> u32 {
        self.time
    }

    /// A trader named `name` whose clock starts at one.
    pub fn new(name: String) -> (t: Self)
        ensures
            t.name_view() == name@,
            t.time_view() == 1,
    {
        Trader_SA { name, time: 1 }
    }

    /// The trader's name.
    pub fn get_trader_name(&self) -> (n: String)
        ensures
            n@ == self.name_view(),
    {
        self.name.clone()
    }

    /// The trader's clock.
    pub fn time(&self) -> (t: u32)
        ensures
            t == self.time_view(),
    {
        self.time
    }
}

/// Where the trader stands in one round of its strategy: a round buys, or waits a
/// day and starts over; then sells, or waits a day, and starts over.
#[derive(Clone, Copy, Debug, PartialEq, Eq, Structural)]
pub enum SaStage {
    /// Start of a round.
    Top,
    /// The program finds the best purchase and tells whether it is worth making.
    BuyDecision,
    /// The program asks the chosen market for a lock and tells whether it was granted.
    LockBuy,
    /// The program buys with the lock and tells whether the purchase went through.
    Buy,
    /// The program waits a day instead of buying.
    WaitAfterBuy,
    /// The program finds the best sale and tells whether it is worth making.
    SellDecision,
    /// The program asks the chosen market for a lock and tells whether it was granted.
    LockSell,
    /// The program sells with the lock and tells whether the sale went through.
    Sell,
    /// The program waits a day instead of selling.
    WaitAfterSell,
    /// The strategy has ended.
    Done,
}

/// Whether a stage, answered with `ok`, advances the trader's clock: a granted lock,
/// a completed trade, a day waited.
pub open spec fn sa_ticks(stage: SaStage, ok: bool) -> bool {
    match stage {
        SaStage::LockBuy | SaStage::Buy | SaStage::LockSell | SaStage::Sell => ok,
        SaStage::WaitAfterBuy | SaStage::WaitAfterSell => true,
        _ => false,
    }
}

/// The stage that follows `stage` answered with `ok`, for a strategy of `rounds`
/// rounds and a clock that stands at `time` before the step. The strategy ends as
/// soon as the clock has passed the number of rounds, whether at the start of a round
/// or right after the clock advanced. A refused lock or a day waited starts the next
/// round; a purchase, made or failed, leads on to selling.
pub open spec fn sa_next_stage(stage: SaStage, rounds: u32, time: u32, ok: bool) -> SaStage {
    if sa_ticks(stage, ok) && rounds < time + 1 {
        SaStage::Done
    } else {
        match stage {
            SaStage::Top => if rounds < time { SaStage::Done } else { SaStage::BuyDecision },
            SaStage::BuyDecision => if ok { SaStage::LockBuy } else { SaStage::WaitAfterBuy },
            SaStage::LockBuy => if ok { SaStage::Buy } else { SaStage::Top },
            SaStage::Buy => SaStage::SellDecision,
            SaStage::WaitAfterBuy => SaStage::Top,
            SaStage::SellDecision => if ok { SaStage::LockSell } else { SaStage::WaitAfterSell },
            SaStage::LockSell => if ok { SaStage::Sell } else { SaStage::Top },
            SaStage::Sell => SaStage::Top,
            SaStage::WaitAfterSell => SaStage::Top,
            SaStage::Done => SaStage::Done,
        }
    }
}

/// The trader's clock counts exactly the granted locks, the completed trades and the
/// days waited: a lock or a trade advances it exactly when it went through, a wait
/// always, and no other stage ever.
pub proof fn lemma_clock_counts_events(ok: bool)
    ensures
        sa_ticks(SaStage::LockBuy, ok) == ok,
        sa_ticks(SaStage::Buy, ok) == ok,
        sa_ticks(SaStage::LockSell, ok) == ok,
        sa_ticks(SaStage::Sell, ok) == ok,
        sa_ticks(SaStage::WaitAfterBuy, ok),
        sa_ticks(SaStage::WaitAfterSell, ok),
        !sa_ticks(SaStage::Top, ok),
        !sa_ticks(SaStage::BuyDecision, ok),
        !sa_ticks(SaStage::SellDecision, ok),
        !sa_ticks(SaStage::Done, ok),
{
}

/// When no purchase, or no sale, is worth making, the trader waits a day; the wait
/// advances the clock, and unless that ends the strategy the next round starts.
pub proof fn lemma_no_trade_waits_a_day(rounds: u32, time: u32, ok: bool)
    ensures
        sa_next_stage(SaStage::BuyDecision, rounds, time, false) == SaStage::WaitAfterBuy,
        sa_next_stage(SaStage::SellDecision, rounds, time, false) == SaStage::WaitAfterSell,
        sa_next_stage(SaStage::WaitAfterBuy, rounds, time, ok) == (if rounds <= time { SaStage::Done } else { SaStage::Top }),
        sa_next_stage(SaStage::WaitAfterSell, rounds, time, ok) == (if rounds <= time { SaStage::Done } else { SaStage::Top }),
{
}

/// The order of a round while the clock has not passed the number of rounds: a
/// round starts with the choice of a purchase; a worthwhile purchase is locked; a
/// granted lock is used to buy, and then, whether or not the purchase went through,
/// the trader turns to selling; a refused lock starts the next round; a worthwhile
/// sale is locked; a granted lock is used to sell and the next round follows; a
/// refused lock starts the next round.
pub proof fn lemma_round_order(rounds: u32, time: u32, ok: bool)
    requires
        time < rounds,
    ensures
        sa_next_stage(SaStage::Top, rounds, time, ok) == SaStage::BuyDecision,
        sa_next_stage(SaStage::BuyDecision, rounds, time, true) == SaStage::LockBuy,
        sa_next_stage(SaStage::LockBuy, rounds, time, true) == SaStage::Buy,
        sa_next_stage(SaStage::LockBuy, rounds, time, false) == SaStage::Top,
        sa_next_stage(SaStage::Buy, rounds, time, ok) == SaStage::SellDecision,
        sa_next_stage(SaStage::SellDecision, rounds, time, true) == SaStage::LockSell,
        sa_next_stage(SaStage::LockSell, rounds, time, true) == SaStage::Sell,
        sa_next_stage(SaStage::LockSell, rounds, time, false) == SaStage::Top,
        sa_next_stage(SaStage::Sell, rounds, time, ok) == SaStage::Top,
{
}

/// The strategy ends exactly when the clock passes the number of rounds: at the
/// start of a round whose clock is past them, or at the step that moves the clock
/// past them; once ended, it stays ended.
pub proof fn lemma_strategy_ends_past_rounds(stage: SaStage, rounds: u32, time: u32, ok: bool)
    requires
        stage != SaStage::Done,
    ensures
        sa_next_stage(stage, rounds, time, ok) == SaStage::Done <==> (
            (stage == SaStage::Top && rounds < time) || (sa_ticks(stage, ok) && rounds < time + 1)),
        sa_next_stage(SaStage::Done, rounds, time, ok) == SaStage::Done,
{
}

/// The markets are listed BFB, RCNZ, ZSE; a name designates RCNZ or ZSE only when it
/// is that market's name, and any other name designates BFB.
pub proof fn lemma_market_names(name: Seq<char>)
    ensures
        slot_at(0) == MarketSlot::Bfb,
        slot_at(1) == MarketSlot::Rcnz,
        slot_at(2) == MarketSlot::Zse,
        slot_of("RCNZ"@) == MarketSlot::Rcnz,
        slot_of("ZSE"@) == MarketSlot::Zse,
        name != "RCNZ"@ && name != "ZSE"@ ==> slot_of(name) == MarketSlot::Bfb,
{
    reveal_strlit("RCNZ");
    reveal_strlit("ZSE");
    assert("RCNZ"@ != "ZSE"@) by {
        assert("RCNZ"@.len() != "ZSE"@.len());
    }
}

/// The market at a position of the list BFB, RCNZ, ZSE; any other position is the
/// Baku stock exchange, the market the strategy falls back to.
pub open spec fn slot_at(i: int) -> MarketSlot {
    if i == 1 {
        MarketSlot::Rcnz
    } else if i == 2 {
        MarketSlot::Zse
    } else {
        MarketSlot::Bfb
    }
}

fn slot_of_index(i: usize) -> (slot: MarketSlot)
    ensures
        slot == slot_at(i as int),
{
    if i == 1 {
        MarketSlot::Rcnz
    } else if i == 2 {
        MarketSlot::Zse
    } else {
        MarketSlot::Bfb
    }
}

/// The strategy of the trader, run for a number of rounds: the stage it stands at,
/// and what the current round chose: the currency bought (and then sold), the market
/// to buy it from and the market to sell it to.
pub struct Strategy {
    rounds: u32,
    stage: SaStage,
    kind: GoodKind,
    buy_slot: MarketSlot,
    sell_slot: MarketSlot,
}

impl Strategy {
    pub closed spec fn rounds_view(&self) -> u32 {
        self.rounds
    }

    pub closed spec fn stage_view(&self) -> SaStage {
        self.stage
    }

    /// The currency the round chose to buy; the round offers the same for sale.
    pub closed spec fn kind_view(&self) -> GoodKind {
        self.kind
    }

    pub closed spec fn buy_slot_view(&self) -> MarketSlot {
        self.buy_slot
    }

    pub closed spec fn sell_slot_view(&self) -> MarketSlot {
        self.sell_slot
    }

    /// A strategy of `rounds` rounds, at the start of its first round.
    pub fn new(rounds: u32) -> (s: Self)
        ensures
            s.rounds_view() == rounds,
            s.stage_view() == SaStage::Top,
            s.kind_view() == GoodKind::USD,
            s.buy_slot_view() == MarketSlot::Bfb,
            s.sell_slot_view() == MarketSlot::Bfb,
    {
        Strategy { rounds, stage: SaStage::Top, kind: GoodKind::USD, buy_slot: MarketSlot::Bfb, sell_slot: MarketSlot::Bfb }
    }

    /// The stage the strategy stands at: what the program does next.
    pub fn stage(&self) -> (st: SaStage)
        ensures
            st == self.stage_view(),
    {
        self.stage
    }

    /// The currency of the current round, bought and then offered for sale.
    pub fn kind(&self) -> (k: GoodKind)
        ensures
            k == self.kind_view(),
    {
        self.kind
    }

    /// The market the current round buys from.
    pub fn buy_slot(&self) -> (m: MarketSlot)
        ensures
            m == self.buy_slot_view(),
    {
        self.buy_slot
    }

    /// The market the current round sells to.
    pub fn sell_slot(&self) -> (m: MarketSlot)
        ensures
            m == self.sell_slot_view(),
    {
        self.sell_slot
    }

    /// Whether the step from the current stage, answered with `ok`, advances the
    /// trader's clock.
    pub fn ticks(&self, ok: bool) -> (b: bool)
        ensures
            b == sa_ticks(self.stage_view(), ok),
    {
        match self.stage {
            SaStage::LockBuy | SaStage::Buy | SaStage::LockSell | SaStage::Sell => ok,
            SaStage::WaitAfterBuy | SaStage::WaitAfterSell => true,
            _ => false,
        }
    }

    /// Chooses the purchase of the round, given the keys of the prices that BFB, RCNZ
    /// and ZSE ask (`None` for an error), the key of the largest price, and the
    /// currency each market's search picked: the market that `pick_buy_market`
    /// picks, or BFB when it picks none, and that market's currency. The round then
    /// sells the same currency.
    pub fn choose_purchase(&mut self, prices: &Vec<Option<i64>>, max_price: i64, kinds: &Vec<GoodKind>) -> (pick: Option<usize>)
        requires
            old(self).stage_view() == SaStage::BuyDecision,
            prices@.len() == 3,
            kinds@.len() == 3,
        ensures
            match (pick, strict_scan(prices@, Some(max_price), true).0) {
                (None, None) => true,
                (Some(i), Some(j)) => i == j,
                _ => false,
            },
            ({
                let i = match pick { Some(i) => i as int, None => 0 };
                &&& final(self).kind_view() == kinds@[i]
                &&& final(self).buy_slot_view() == slot_at(i)
            }),
            final(self).rounds_view() == old(self).rounds_view(),
            final(self).stage_view() == old(self).stage_view(),
            final(self).sell_slot_view() == old(self).sell_slot_view(),
    {
        let pick = pick_buy_market(prices, max_price);
        proof {
            // the pick is a position of the list
            lemma_strict_scan_optimal(prices@, Some(max_price), true);
        }
        let i = match pick {
            Some(i) => i,
            None => 0,
        };
        self.kind = kinds[i];
        self.buy_slot = slot_of_index(i);
        pick
    }

    /// Chooses the market the round sells its currency to, given the keys of the
    /// prices that BFB, RCNZ and ZSE offer (`None` for an error): the market that
    /// `pick_sell_market` picks, or BFB when it picks none. The currency stays the
    /// one the round bought.
    pub fn choose_sale(&mut self, prices: &Vec<Option<i64>>) -> (pick: Option<usize>)
        requires
            old(self).stage_view() == SaStage::SellDecision,
            prices@.len() == 3,
        ensures
            match (pick, strict_scan(prices@, Some(0), false).0) {
                (None, None) => true,
                (Some(i), Some(j)) => i == j,
                _ => false,
            },
            final(self).sell_slot_view() == slot_at(match pick { Some(i) => i as int, None => 0 }),
            final(self).kind_view() == old(self).kind_view(),
            final(self).buy_slot_view() == old(self).buy_slot_view(),
            final(self).rounds_view() == old(self).rounds_view(),
            final(self).stage_view() == old(self).stage_view(),
    {
        let pick = pick_sell_market(prices);
        let i = match pick {
            Some(i) => i,
            None => 0,
        };
        self.sell_slot = slot_of_index(i);
        pick
    }

    /// Moves the strategy on after the program did what the stage asks, `ok` telling
    /// how it went, and advances the trader's clock where the stage calls for it. The
    /// round's choices stay as they are.
    pub fn step(&mut self, trader: &mut Trader_SA, ok: bool)
        requires
            old(self).stage_view() != SaStage::Done,
            sa_ticks(old(self).stage_view(), ok) ==> old(trader).time_view() < u32::MAX,
        ensures
            final(self).rounds_view() == old(self).rounds_view(),
            final(self).stage_view() == sa_next_stage(old(self).stage_view(), old(self).rounds_view(), old(trader).time_view(), ok),
            final(self).kind_view() == old(self).kind_view(),
            final(self).buy_slot_view() == old(self).buy_slot_view(),
            final(self).sell_slot_view() == old(self).sell_slot_view(),
            final(trader).name_view() == old(trader).name_view(),
            final(trader).time_view() == if sa_ticks(old(self).stage_view(), ok) {
                old(trader).time_view() + 1
            } else {
                old(trader).time_view() as int
            },
    {
        let ticks = self.ticks(ok);
        let next = if ticks && self.rounds <= trader.time {
            SaStage::Done
        } else {
            match self.stage {
                SaStage::Top => if self.rounds < trader.time { SaStage::Done } else { SaStage::BuyDecision },
                SaStage::BuyDecision => if ok { SaStage::LockBuy } else { SaStage::WaitAfterBuy },
                SaStage::LockBuy => if ok { SaStage::Buy } else { SaStage::Top },
                SaStage::Buy => SaStage::SellDecision,
                SaStage::WaitAfterBuy => SaStage::Top,
                SaStage::SellDecision => if ok { SaStage::LockSell } else { SaStage::WaitAfterSell },
                SaStage::LockSell => if ok { SaStage::Sell } else { SaStage::Top },
                SaStage::Sell => SaStage::Top,
                SaStage::WaitAfterSell => SaStage::Top,
                SaStage::Done => SaStage::Done,
            }
        };
        if ticks {
            trader.time = trader.time + 1;
        }
        self.stage = next;
    }
}

} // verus!
