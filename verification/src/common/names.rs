use vstd::prelude::*;

verus! {

/// The name under which the Baku stock exchange calls itself.
pub open spec fn baku_full_name() -> Seq<char> {
    "Baku stock exchange"@
}

/// The name under which the visualizer knows a market: the Baku stock exchange
/// is shown as "BFB", every other market under its own name.
pub open spec fn sending_name(name: Seq<char>) -> Seq<char> {
    if name == baku_full_name() {
        "BFB"@
    } else {
        name
    }
}

/// Maps a market's own name to the name that the visualizer expects.
pub fn get_market_name_for_sending(market_name: &str) -> (res: String)
    ensures
        res@ == sending_name(market_name@),
{
    let name = market_name.to_owned();
    let baku = String::from_str("Baku stock exchange");
    if name == baku {
        String::from_str("BFB")
    } else {
        name
    }
}

/// The Baku stock exchange is shown as "BFB", and every other market under its own
/// name, unchanged.
pub proof fn lemma_sending_name_changes_only_baku(name: Seq<char>)
    ensures
        sending_name(baku_full_name()) == "BFB"@,
        name != baku_full_name() ==> sending_name(name) == name,
{
}

/// Two markets with different names other than "BFB" are shown under different names.
pub proof fn lemma_sending_name_tells_markets_apart(a: Seq<char>, b: Seq<char>)
    requires
        a != b,
        a != "BFB"@,
        b != "BFB"@,
    ensures
        sending_name(a) != sending_name(b),
{
    reveal_strlit("Baku stock exchange");
    reveal_strlit("BFB");
}

/// Mapping a name for the visualizer is idempotent, and no market is ever shown
/// under the Baku stock exchange's own name.
pub proof fn lemma_sending_name_idempotent(name: Seq<char>)
    ensures
        sending_name(sending_name(name)) == sending_name(name),
        sending_name(name) != baku_full_name(),
{
    reveal_strlit("Baku stock exchange");
    reveal_strlit("BFB");
    assert("BFB"@.len() != baku_full_name().len());
}

} // verus!
