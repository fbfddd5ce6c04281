//! Holding a chain's payouts and its total supply against recomputed ones.

use crate::chainspec::CoreConfig;
use crate::ledger::{credited, paid_out, pays, recomputed, Ledger, Recomputed};
use crate::ordered::{in_order, lemma_in_order_lists, lemma_lists_drop_last, list_entries, lists};
use crate::rational::{
    difference, integer, lemma_difference_value, lemma_integer, lemma_lowest_terms_unique,
    lemma_sum_value, sum, Rational,
};
use crate::rewards::{
    amounts_sum, credits_wf, earlier_supplies, era_credits, lemma_era_credits_wf, map_wf, total,
    total_amount, Block, Credit,
};
use crate::switch_blocks::BlockHeader;
use crate::u512::U512;
use std::collections::BTreeMap;
use vstd::prelude::*;

verus! {

/// The sum of the first `n` fractions of a list, each added to the sum of those before it.
pub open spec fn running_total(entries: Seq<(u64, Rational)>, n: nat) -> Option<Rational>
    decreases n,
{
    if n == 0 {
        Some(integer(0))
    } else {
        match running_total(entries, (n - 1) as nat) {
            None => None,
            Some(so_far) => sum(entries[n - 1].1, so_far),
        }
    }
}

/// The sum of the fractions of a map, added up in the order of the keys.
pub open spec fn ordered_total(map: Map<u64, Rational>) -> Option<Rational> {
    running_total(in_order(map), in_order(map).len())
}

proof fn lemma_running_total_stays_none(entries: Seq<(u64, Rational)>, n: nat, m: nat)
    requires
        n <= m,
        running_total(entries, n) is None,
    ensures
        running_total(entries, m) is None,
    decreases m,
{
    if n < m {
        lemma_running_total_stays_none(entries, n, (m - 1) as nat);
    }
}

/// Adds up the rewards of an era.
pub fn total_rewards(rewards: &BTreeMap<u64, Rational>) -> (r: Option<Rational>)
    requires
        map_wf(rewards@),
    ensures
        r == ordered_total(rewards@),
        r matches Some(t) ==> t.wf(),
{
    let entries: Vec<(u64, Rational)> = list_entries(rewards);
    let mut acc: Rational = Rational::from_integer(0);
    let mut i: usize = 0;
    while i < entries.len()
        invariant
            i <= entries@.len(),
            acc.wf(),
            map_wf(rewards@),
            lists(entries@, rewards@),
            running_total(entries@, i as nat) == Some(acc),
            ordered_total(rewards@) == running_total(entries@, entries@.len()),
        decreases entries@.len() - i,
    {
        assert(rewards@.contains_key(entries@[i as int].0));
        match entries[i].1.checked_add(acc) {
            Some(next) => {
                acc = next;
            },
            None => {
                proof {
                    lemma_running_total_stays_none(entries@, (i + 1) as nat, entries@.len());
                }
                return None;
            },
        }
        i += 1;
    }
    Some(acc)
}

/// What the fractions of a map stand for, added up.
pub open spec fn total_value(map: Map<u64, Rational>) -> real
    decreases map.dom().len(),
    when map.dom().finite()
{
    if map.dom().len() == 0 {
        0 as real
    } else {
        let k = map.dom().choose();
        map[k].value() + total_value(map.remove(k))
    }
}

/// Any entry may be taken out of the sum first.
pub proof fn lemma_total_value_remove(map: Map<u64, Rational>, k: u64)
    requires
        map.dom().finite(),
        map.contains_key(k),
    ensures
        total_value(map) == map[k].value() + total_value(map.remove(k)),
    decreases map.dom().len(),
{
    let c = map.dom().choose();
    assert(map.dom().contains(k));
    assert(map.dom().len() > 0);
    assert(map.dom().contains(c));
    if c != k {
        let without = map.remove(c);
        assert(without.dom() =~= map.dom().remove(c));
        lemma_total_value_remove(without, k);
        assert(map.remove(k).dom() =~= map.dom().remove(k));
        lemma_total_value_remove(map.remove(k), c);
        assert(map.remove(k).remove(c) =~= map.remove(c).remove(k));
    }
}

/// How writing an entry changes the sum.
proof fn lemma_total_value_insert(map: Map<u64, Rational>, k: u64, v: Rational)
    requires
        map.dom().finite(),
    ensures
        map.insert(k, v).dom().finite(),
        total_value(map.insert(k, v)) == total_value(map) + v.value() - (if map.contains_key(k) {
            map[k].value()
        } else {
            0 as real
        }),
{
    let after = map.insert(k, v);
    lemma_total_value_remove(after, k);
    if map.contains_key(k) {
        lemma_total_value_remove(map, k);
        assert(after.remove(k) =~= map.remove(k));
    } else {
        assert(after.remove(k) =~= map);
    }
}

/// Adding the fractions of a map up in the order of the keys gives what they stand for together.
pub proof fn lemma_ordered_total_value(map: Map<u64, Rational>)
    requires
        map_wf(map),
        map.dom().finite(),
    ensures
        ordered_total(map) matches Some(t) ==> t.wf() && t.value() == total_value(map),
{
    lemma_in_order_lists(map);
    lemma_running_total_value(in_order(map), map);
}

proof fn lemma_running_total_value(entries: Seq<(u64, Rational)>, map: Map<u64, Rational>)
    requires
        map_wf(map),
        map.dom().finite(),
        lists(entries, map),
    ensures
        running_total(entries, entries.len()) matches Some(t) ==> t.wf() && t.value()
            == total_value(map),
    decreases entries.len(),
{
    lemma_integer(0);
    if entries.len() == 0 {
        assert(map.dom() =~= Set::empty()) by {
            assert forall|k: u64| !map.dom().contains(k) by {
                if map.contains_key(k) {
                    let i = choose|i: int| 0 <= i < entries.len() && entries[i].0 == k;
                }
            }
        }
    } else {
        let shorter = entries.drop_last();
        let k = entries.last().0;
        assert(map.contains_key(k));
        lemma_lists_drop_last(entries, map);
        assert(map_wf(map.remove(k))) by {
            assert forall|j: u64| #[trigger] map.remove(k).contains_key(j) implies map.remove(
                k,
            )[j].wf() by {
                assert(map.contains_key(j));
            }
        }
        lemma_running_total_value(shorter, map.remove(k));
        lemma_running_total_same(shorter, entries, shorter.len());
        lemma_total_value_remove(map, k);
        if let Some(so_far) = running_total(shorter, shorter.len()) {
            lemma_sum_value(entries.last().1, so_far);
        }
    }
}

proof fn lemma_running_total_same(a: Seq<(u64, Rational)>, b: Seq<(u64, Rational)>, n: nat)
    requires
        n <= a.len(),
        n <= b.len(),
        forall|i: int| 0 <= i < n ==> a[i] == b[i],
    ensures
        running_total(a, n) == running_total(b, n),
    decreases n,
{
    if n > 0 {
        lemma_running_total_same(a, b, (n - 1) as nat);
    }
}

/// Paying a credit out raises the recipient's rewards, and with them the rewards of the era, and
/// the total supply by the amount of the credit, and changes nothing else.
pub proof fn lemma_credit_conserved(ledger: Ledger, era: u64, credit: Credit)
    requires
        ledger.wf(),
        ledger.rewards.dom().finite(),
        ledger.supply.contains_key(era),
        credit.amount.wf(),
    ensures
        credited(ledger, era, credit) matches Ok(after) ==> {
            &&& after.wf()
            &&& after.rewards.dom().finite()
            &&& after.supply.dom() == ledger.supply.dom()
            &&& total_value(after.rewards) == total_value(ledger.rewards) + credit.amount.value()
            &&& after.supply[era].value() == ledger.supply[era].value() + credit.amount.value()
            &&& forall|k: u64| k != era ==> after.supply[k] == ledger.supply[k]
            &&& forall|k: u64|
                k != credit.recipient ==> {
                    &&& after.rewards.contains_key(k) == ledger.rewards.contains_key(k)
                    &&& after.rewards[k] == ledger.rewards[k]
                }
        },
{
    let r = credit.recipient;
    lemma_sum_value(ledger.supply[era], credit.amount);
    if ledger.rewards.contains_key(r) {
        lemma_sum_value(ledger.rewards[r], credit.amount);
    }
    if let Ok(after) = credited(ledger, era, credit) {
        lemma_total_value_insert(ledger.rewards, r, after.rewards[r]);
        assert(after.rewards =~= ledger.rewards.insert(r, after.rewards[r]));
        assert(after.supply.dom() =~= ledger.supply.dom());
    }
}

/// Paying credits out raises the rewards of the era and its total supply by the same amount.
pub proof fn lemma_payout_conserved(ledger: Ledger, era: u64, credits: Seq<Credit>, n: nat)
    requires
        ledger.wf(),
        ledger.rewards.dom().finite(),
        ledger.supply.contains_key(era),
        credits_wf(credits),
        n <= credits.len(),
    ensures
        paid_out(ledger, era, credits, n) matches Ok(after) ==> {
            &&& after.wf()
            &&& after.rewards.dom().finite()
            &&& after.supply.dom() == ledger.supply.dom()
            &&& total_value(after.rewards) - total_value(ledger.rewards) == after.supply[era].value()
                - ledger.supply[era].value()
            &&& forall|k: u64| k != era ==> after.supply[k] == ledger.supply[k]
        },
    decreases n,
{
    if n > 0 {
        lemma_payout_conserved(ledger, era, credits, (n - 1) as nat);
        if let Ok(so_far) = paid_out(ledger, era, credits, (n - 1) as nat) {
            lemma_credit_conserved(so_far, era, credits[n - 1]);
        }
    }
}

/// The supply that a recomputation has found so far covers no era beyond those looked at.
proof fn lemma_recomputed_supply(
    config: CoreConfig,
    headers: Seq<BlockHeader>,
    blocks: Seq<Block>,
    highest_completed_height: u64,
    genesis_supply: Rational,
    n: nat,
)
    requires
        config.wf(),
        genesis_supply.wf(),
        n <= headers.len() <= u64::MAX,
    ensures
        recomputed(config, headers, blocks, highest_completed_height, genesis_supply, n) matches Ok(
            (rewards, supply),
        ) ==> {
            &&& rewards.len() == n
            &&& map_wf(supply)
            &&& forall|k: u64| #[trigger] supply.contains_key(k) ==> k == 0 || k < n
            &&& n > 0 && pays(headers[n - 1], highest_completed_height) ==> {
                &&& n > 1
                &&& supply.contains_key((n - 2) as u64)
                &&& supply.contains_key((n - 1) as u64)
                &&& rewards[n - 1].dom().finite()
                &&& map_wf(rewards[n - 1])
                &&& total_value(rewards[n - 1]) == supply[(n - 1) as u64].value() - supply[(n
                    - 2) as u64].value()
            }
        },
    decreases n,
{
    if n > 0 {
        lemma_recomputed_supply(
            config,
            headers,
            blocks,
            highest_completed_height,
            genesis_supply,
            (n - 1) as nat,
        );
        if let Ok((rewards, supply)) = recomputed(
            config,
            headers,
            blocks,
            highest_completed_height,
            genesis_supply,
            (n - 1) as nat,
        ) {
            if pays(headers[n - 1], highest_completed_height) {
                lemma_era_credits_wf(config, headers, blocks, n - 1, supply);
                if let Ok(credits) = era_credits(config, headers, blocks, n - 1, supply) {
                    let era = (n - 1) as u64;
                    assert(earlier_supplies(headers, n - 1, supply) is Ok);
                    assert(supply.contains_key((n - 2) as u64));
                    let start = Ledger {
                        rewards: Map::empty(),
                        supply: supply.insert(era, supply[(n - 2) as u64]),
                    };
                    assert(start.wf());
                    assert(total_value(start.rewards) == 0 as real);
                    lemma_payout_conserved(start, era, credits, credits.len());
                    if let Ok(after) = paid_out(start, era, credits, credits.len()) {
                        assert forall|k: u64| #[trigger] after.supply.contains_key(k) implies k == 0
                            || k < n by {
                            assert(start.supply.dom().contains(k));
                        }
                        assert(after.supply.dom().contains(era));
                        assert(after.supply.dom().contains((n - 2) as u64));
                    }
                }
            }
        }
    }
}

/// The total supply grows in each era by exactly the rewards of the era.
pub proof fn lemma_supply_grows_by_rewards(
    config: CoreConfig,
    headers: Seq<BlockHeader>,
    blocks: Seq<Block>,
    highest_completed_height: u64,
    genesis_supply: Rational,
    n: nat,
    i: int,
)
    requires
        config.wf(),
        genesis_supply.wf(),
        n <= headers.len() <= u64::MAX,
        0 <= i < n,
        pays(headers[i], highest_completed_height),
    ensures
        recomputed(config, headers, blocks, highest_completed_height, genesis_supply, n) matches Ok(
            (rewards, supply),
        ) ==> {
            &&& i > 0
            &&& map_wf(supply)
            &&& map_wf(rewards[i])
            &&& rewards[i].dom().finite()
            &&& supply.contains_key(i as u64)
            &&& supply.contains_key((i - 1) as u64)
            &&& total_value(rewards[i]) == supply[i as u64].value() - supply[(i
                - 1) as u64].value()
        },
    decreases n,
{
    lemma_recomputed_supply(
        config,
        headers,
        blocks,
        highest_completed_height,
        genesis_supply,
        n,
    );
    if i < n - 1 {
        lemma_supply_grows_by_rewards(
            config,
            headers,
            blocks,
            highest_completed_height,
            genesis_supply,
            (n - 1) as nat,
            i,
        );
        lemma_recomputed_supply(
            config,
            headers,
            blocks,
            highest_completed_height,
            genesis_supply,
            (n - 1) as nat,
        );
        if let Ok((rewards, supply)) = recomputed(
            config,
            headers,
            blocks,
            highest_completed_height,
            genesis_supply,
            (n - 1) as nat,
        ) {
            if pays(headers[n - 1], highest_completed_height) {
                lemma_era_credits_wf(config, headers, blocks, n - 1, supply);
                if let Ok(credits) = era_credits(config, headers, blocks, n - 1, supply) {
                    let era = (n - 1) as u64;
                    assert(earlier_supplies(headers, n - 1, supply) is Ok);
                    assert(supply.contains_key((n - 2) as u64));
                    let start = Ledger {
                        rewards: Map::empty(),
                        supply: supply.insert(era, supply[(n - 2) as u64]),
                    };
                    assert(start.wf());
                    lemma_payout_conserved(start, era, credits, credits.len());
                    if let Ok(after) = paid_out(start, era, credits, credits.len()) {
                        assert(start.supply.dom().contains(i as u64));
                        assert(start.supply.dom().contains((i - 1) as u64));
                        assert(after.supply.dom().contains(i as u64));
                        assert(after.supply.dom().contains((i - 1) as u64));
                    }
                }
            }
        }
    }
}

/// How a chain differs from what was recomputed of it.
#[derive(Clone, Copy, Debug, PartialEq, Eq, Structural)]
pub enum AuditError {
    /// The chain's total supply at the height of a switch block is not known.
    UnknownHeight,
    /// An amount, or the sum of the amounts paid out in an era, exceeds a `u64`.
    AmountOverflow,
    /// No total supply was recomputed for an era.
    MissingSupply,
    /// A switch block does not say how its era ended.
    MissingEraEnd,
    /// A computation leaves the range of 64-bit fractions.
    Arithmetic,
    /// The chain's total supply at the end of an era is not the recomputed one.
    SupplyMismatch {
        /// The era in question.
        era: u64,
    },
    /// What the chain paid out in an era is not what was recomputed.
    RewardsMismatch {
        /// The era in question.
        era: u64,
    },
    /// The recomputed supply did not grow by the recomputed rewards.
    GrowthMismatch {
        /// The era in question.
        era: u64,
    },
}

/// What is wrong with the total supply at the given switch block.
pub open spec fn header_fault(
    header: BlockHeader,
    observed: Seq<U512>,
    supply: Map<u64, Rational>,
) -> Option<AuditError> {
    let era = header.era_id.number;
    if header.height >= observed.len() {
        Some(AuditError::UnknownHeight)
    } else if observed[header.height as int]@ > u64::MAX {
        Some(AuditError::AmountOverflow)
    } else if !supply.contains_key(era) {
        Some(AuditError::MissingSupply)
    } else if supply[era] != integer(observed[header.height as int]@ as u64) {
        Some(AuditError::SupplyMismatch { era })
    } else {
        None
    }
}

/// What is wrong with the total supply at the first `n` switch blocks, as far as the node has the
/// blocks.
pub open spec fn supply_fault(
    headers: Seq<BlockHeader>,
    highest_completed_height: u64,
    observed: Seq<U512>,
    supply: Map<u64, Rational>,
    n: nat,
) -> Option<AuditError>
    decreases n,
{
    if n == 0 {
        None
    } else {
        match supply_fault(headers, highest_completed_height, observed, supply, (n - 1) as nat) {
            Some(e) => Some(e),
            None => if headers[n - 1].height <= highest_completed_height {
                header_fault(headers[n - 1], observed, supply)
            } else {
                None
            },
        }
    }
}

proof fn lemma_supply_fault_stays(
    headers: Seq<BlockHeader>,
    highest_completed_height: u64,
    observed: Seq<U512>,
    supply: Map<u64, Rational>,
    n: nat,
    m: nat,
)
    requires
        n <= m,
        supply_fault(headers, highest_completed_height, observed, supply, n) is Some,
    ensures
        supply_fault(headers, highest_completed_height, observed, supply, m) == supply_fault(
            headers,
            highest_completed_height,
            observed,
            supply,
            n,
        ),
    decreases m,
{
    if n < m {
        lemma_supply_fault_stays(
            headers,
            highest_completed_height,
            observed,
            supply,
            n,
            (m - 1) as nat,
        );
    }
}

fn check_header(
    header: &BlockHeader,
    observed: &Vec<U512>,
    supply: &BTreeMap<u64, Rational>,
) -> (r: Option<AuditError>)
    ensures
        r == header_fault(*header, observed@, supply@),
{
    broadcast use vstd::std_specs::btree::group_btree_axioms;

    let era: u64 = header.era_id.number;
    if header.height >= observed.len() as u64 {
        return Some(AuditError::UnknownHeight);
    }
    let amount: u64 = match observed[header.height as usize].to_u64() {
        Some(amount) => amount,
        None => {
            return Some(AuditError::AmountOverflow);
        },
    };
    match supply.get(&era) {
        None => Some(AuditError::MissingSupply),
        Some(expected) => if *expected != Rational::from_integer(amount) {
            Some(AuditError::SupplyMismatch { era })
        } else {
            None
        },
    }
}

/// Checks that the chain's total supply at each switch block is the recomputed one.
pub fn check_supply(
    headers: &Vec<BlockHeader>,
    highest_completed_height: u64,
    observed: &Vec<U512>,
    supply: &BTreeMap<u64, Rational>,
) -> (r: Option<AuditError>)
    ensures
        r == supply_fault(
            headers@,
            highest_completed_height,
            observed@,
            supply@,
            headers@.len(),
        ),
{
    let mut i: usize = 0;
    while i < headers.len()
        invariant
            i <= headers@.len(),
            supply_fault(
                headers@,
                highest_completed_height,
                observed@,
                supply@,
                i as nat,
            ) is None,
        decreases headers@.len() - i,
    {
        if headers[i].height <= highest_completed_height {
            let fault: Option<AuditError> = check_header(&headers[i], observed, supply);
            if fault.is_some() {
                proof {
                    lemma_supply_fault_stays(
                        headers@,
                        highest_completed_height,
                        observed@,
                        supply@,
                        (i + 1) as nat,
                        headers@.len(),
                    );
                }
                return fault;
            }
        }
        i += 1;
    }
    None
}

/// What is wrong with the rewards of the given era.
pub open spec fn era_rewards_fault(
    header: BlockHeader,
    era: u64,
    rewards: Map<u64, Rational>,
    supply: Map<u64, Rational>,
) -> Option<AuditError> {
    match header.era_end {
        None => Some(AuditError::MissingEraEnd),
        Some(end) => match total_amount(end.rewards@) {
            None => Some(AuditError::AmountOverflow),
            Some(paid) => match ordered_total(rewards) {
                None => Some(AuditError::Arithmetic),
                Some(owed) => if owed != integer(paid) {
                    Some(AuditError::RewardsMismatch { era })
                } else if !supply.contains_key(era) || !supply.contains_key((era - 1) as u64) {
                    Some(AuditError::MissingSupply)
                } else {
                    match difference(supply[era], supply[(era - 1) as u64]) {
                        None => Some(AuditError::Arithmetic),
                        Some(growth) => if owed != growth {
                            Some(AuditError::GrowthMismatch { era })
                        } else {
                            None
                        },
                    }
                },
            },
        },
    }
}

/// What is wrong with the rewards of the first `n` eras; era 0 has none, and eras whose blocks the
/// node does not have are left out.
pub open spec fn rewards_fault(
    headers: Seq<BlockHeader>,
    highest_completed_height: u64,
    rewards: Seq<Map<u64, Rational>>,
    supply: Map<u64, Rational>,
    n: nat,
) -> Option<AuditError>
    decreases n,
{
    if n == 0 {
        None
    } else {
        match rewards_fault(headers, highest_completed_height, rewards, supply, (n - 1) as nat) {
            Some(e) => Some(e),
            None => if n > 1 && headers[n - 1].height <= highest_completed_height {
                era_rewards_fault(headers[n - 1], (n - 1) as u64, rewards[n - 1], supply)
            } else {
                None
            },
        }
    }
}

proof fn lemma_rewards_fault_stays(
    headers: Seq<BlockHeader>,
    highest_completed_height: u64,
    rewards: Seq<Map<u64, Rational>>,
    supply: Map<u64, Rational>,
    n: nat,
    m: nat,
)
    requires
        n <= m,
        rewards_fault(headers, highest_completed_height, rewards, supply, n) is Some,
    ensures
        rewards_fault(headers, highest_completed_height, rewards, supply, m) == rewards_fault(
            headers,
            highest_completed_height,
            rewards,
            supply,
            n,
        ),
    decreases m,
{
    if n < m {
        lemma_rewards_fault_stays(
            headers,
            highest_completed_height,
            rewards,
            supply,
            n,
            (m - 1) as nat,
        );
    }
}

fn check_era_rewards(
    header: &BlockHeader,
    era: u64,
    rewards: &BTreeMap<u64, Rational>,
    supply: &BTreeMap<u64, Rational>,
) -> (r: Option<AuditError>)
    requires
        era > 0,
        map_wf(rewards@),
        map_wf(supply@),
    ensures
        r == era_rewards_fault(*header, era, rewards@, supply@),
{
    broadcast use vstd::std_specs::btree::group_btree_axioms;

    let end = match &header.era_end {
        Some(end) => end,
        None => {
            return Some(AuditError::MissingEraEnd);
        },
    };
    let paid: u64 = match total(&end.rewards) {
        Some(paid) => paid,
        None => {
            return Some(AuditError::AmountOverflow);
        },
    };
    let owed: Rational = match total_rewards(rewards) {
        Some(owed) => owed,
        None => {
            return Some(AuditError::Arithmetic);
        },
    };
    if owed != Rational::from_integer(paid) {
        return Some(AuditError::RewardsMismatch { era });
    }
    match (supply.get(&era), supply.get(&(era - 1))) {
        (Some(after), Some(before)) => match after.checked_sub(*before) {
            None => Some(AuditError::Arithmetic),
            Some(growth) => if owed != growth {
                Some(AuditError::GrowthMismatch { era })
            } else {
                None
            },
        },
        _ => Some(AuditError::MissingSupply),
    }
}

/// Checks that what the chain paid out in each era is what was recomputed, and that the recomputed
/// supply grew by just that.
pub fn check_rewards(
    headers: &Vec<BlockHeader>,
    highest_completed_height: u64,
    result: &Recomputed,
) -> (r: Option<AuditError>)
    requires
        result.wf(),
        result.rewards@.len() == headers@.len(),
    ensures
        r == rewards_fault(
            headers@,
            highest_completed_height,
            result.rewards_view(),
            result.total_supply@,
            headers@.len(),
        ),
{
    let ghost rewards = result.rewards_view();
    let ghost supply = result.total_supply@;
    let mut i: usize = 0;
    while i < headers.len()
        invariant
            i <= headers@.len(),
            result.wf(),
            result.rewards@.len() == headers@.len(),
            rewards == result.rewards_view(),
            supply == result.total_supply@,
            rewards_fault(
                headers@,
                highest_completed_height,
                rewards,
                supply,
                i as nat,
            ) is None,
        decreases headers@.len() - i,
    {
        if i > 0 && headers[i].height <= highest_completed_height {
            let fault: Option<AuditError> = check_era_rewards(
                &headers[i],
                i as u64,
                &result.rewards[i],
                &result.total_supply,
            );
            if fault.is_some() {
                proof {
                    lemma_rewards_fault_stays(
                        headers@,
                        highest_completed_height,
                        rewards,
                        supply,
                        (i + 1) as nat,
                        headers@.len(),
                    );
                }
                return fault;
            }
        }
        i += 1;
    }
    None
}

/// Where rewards are recomputed, the total of an era's rewards is exactly the fraction by which the
/// supply grew: a check of the rewards never finds the two apart.
pub proof fn lemma_growth_always_matches(
    config: CoreConfig,
    headers: Seq<BlockHeader>,
    blocks: Seq<Block>,
    highest_completed_height: u64,
    genesis_supply: Rational,
    n: nat,
    i: int,
)
    requires
        config.wf(),
        genesis_supply.wf(),
        n <= headers.len() <= u64::MAX,
        0 < i < n,
        pays(headers[i], highest_completed_height),
    ensures
        recomputed(config, headers, blocks, highest_completed_height, genesis_supply, n) matches Ok(
            (rewards, supply),
        ) ==> era_rewards_fault(headers[i], i as u64, rewards[i], supply) != Some(
            AuditError::GrowthMismatch { era: i as u64 },
        ),
{
    lemma_supply_grows_by_rewards(
        config,
        headers,
        blocks,
        highest_completed_height,
        genesis_supply,
        n,
        i,
    );
    if let Ok((rewards, supply)) = recomputed(
        config,
        headers,
        blocks,
        highest_completed_height,
        genesis_supply,
        n,
    ) {
        lemma_ordered_total_value(rewards[i]);
        lemma_difference_value(supply[i as u64], supply[(i - 1) as u64]);
        if let (Some(owed), Some(growth)) = (
            ordered_total(rewards[i]),
            difference(supply[i as u64], supply[(i - 1) as u64]),
        ) {
            lemma_lowest_terms_unique(owed, growth);
        }
    }
}

/// Where both checks find nothing, the chain's own total supply grew in each era by just what the
/// chain paid out.
pub proof fn lemma_audited_chain_conserves(
    headers: Seq<BlockHeader>,
    highest_completed_height: u64,
    observed: Seq<U512>,
    rewards: Seq<Map<u64, Rational>>,
    supply: Map<u64, Rational>,
    i: int,
)
    requires
        supply_fault(headers, highest_completed_height, observed, supply, headers.len()) is None,
        rewards_fault(headers, highest_completed_height, rewards, supply, headers.len()) is None,
        0 < i < headers.len() <= u64::MAX,
        headers[i].era_id.number == i,
        headers[i - 1].era_id.number == i - 1,
        headers[i].height <= highest_completed_height,
        headers[i - 1].height <= highest_completed_height,
    ensures
        headers[i].era_end is Some,
        observed[headers[i].height as int]@ == observed[headers[i - 1].height as int]@ + amounts_sum(
            headers[i].era_end->0.rewards@,
            headers[i].era_end->0.rewards@.len(),
        ),
{
    let h = highest_completed_height;
    let n = headers.len();
    if supply_fault(headers, h, observed, supply, (i + 1) as nat) is Some {
        lemma_supply_fault_stays(headers, h, observed, supply, (i + 1) as nat, n);
    }
    if supply_fault(headers, h, observed, supply, i as nat) is Some {
        lemma_supply_fault_stays(headers, h, observed, supply, i as nat, n);
    }
    if rewards_fault(headers, h, rewards, supply, (i + 1) as nat) is Some {
        lemma_rewards_fault_stays(headers, h, rewards, supply, (i + 1) as nat, n);
    }
    assert(header_fault(headers[i], observed, supply) is None);
    assert(header_fault(headers[i - 1], observed, supply) is None);
    assert(era_rewards_fault(headers[i], i as u64, rewards[i], supply) is None);
    let after = observed[headers[i].height as int]@ as u64;
    let before = observed[headers[i - 1].height as int]@ as u64;
    let paid = total_amount(headers[i].era_end->0.rewards@)->0;
    lemma_integer(after);
    lemma_integer(before);
    lemma_integer(paid);
    lemma_difference_value(integer(after), integer(before));
    assert(difference(integer(after), integer(before)) == Some(integer(paid)));
    assert(paid as real == after as real - before as real);
}

/// The check of the supplies finds nothing exactly where, at every switch block that the node has, the
/// chain's total supply is known and is, as an integer, the one recomputed for the block's era.
pub proof fn lemma_supply_checked(
    headers: Seq<BlockHeader>,
    highest_completed_height: u64,
    observed: Seq<U512>,
    supply: Map<u64, Rational>,
    n: nat,
)
    requires
        n <= headers.len(),
    ensures
        supply_fault(headers, highest_completed_height, observed, supply, n) is None
            <==> forall|i: int|
            #![trigger headers[i]]
            0 <= i < n && headers[i].height <= highest_completed_height ==> {
                let era = headers[i].era_id.number;
                &&& headers[i].height < observed.len()
                &&& supply.contains_key(era)
                &&& supply[era].denom == 1
                &&& supply[era].numer == observed[headers[i].height as int]@
            },
    decreases n,
{
    if n > 0 {
        lemma_supply_checked(
            headers,
            highest_completed_height,
            observed,
            supply,
            (n - 1) as nat,
        );
        let last = headers[n - 1];
        assert(headers[n - 1] == last);
    }
}

/// What an error of the check of the supplies names is so, at some switch block that the node has.
pub proof fn lemma_supply_errors(
    headers: Seq<BlockHeader>,
    highest_completed_height: u64,
    observed: Seq<U512>,
    supply: Map<u64, Rational>,
    n: nat,
)
    requires
        n <= headers.len(),
    ensures
        supply_fault(headers, highest_completed_height, observed, supply, n) matches Some(error)
            ==> exists|i: int|
            #![trigger headers[i]]
            {
                let (header, era) = (headers[i], headers[i].era_id.number);
                &&& 0 <= i < n
                &&& header.height <= highest_completed_height
                &&& match error {
                    AuditError::UnknownHeight => header.height >= observed.len(),
                    AuditError::AmountOverflow => observed[header.height as int]@ > u64::MAX,
                    AuditError::MissingSupply => !supply.contains_key(era),
                    AuditError::SupplyMismatch { era: e } => {
                        &&& e == era
                        &&& supply[era].denom != 1 || supply[era].numer
                            != observed[header.height as int]@
                    },
                    _ => false,
                }
            },
    decreases n,
{
    if n > 0 {
        lemma_supply_errors(headers, highest_completed_height, observed, supply, (n - 1) as nat);
        let last = headers[n - 1];
        assert(headers[n - 1] == last);
    }
}

/// Where the check of the rewards finds nothing, the switch block of every era after the first one that
/// the node has says how the era ended, and what it paid out is, in numbers, both what the recomputed
/// rewards add up to and what the recomputed supply grew by.
pub proof fn lemma_rewards_checked(
    headers: Seq<BlockHeader>,
    highest_completed_height: u64,
    rewards: Seq<Map<u64, Rational>>,
    supply: Map<u64, Rational>,
    n: nat,
    i: int,
)
    requires
        n <= headers.len() <= u64::MAX,
        0 < i < n,
        headers[i].height <= highest_completed_height,
        map_wf(rewards[i]),
        rewards[i].dom().finite(),
        map_wf(supply),
        rewards_fault(headers, highest_completed_height, rewards, supply, n) is None,
    ensures
        headers[i].era_end is Some,
        supply.contains_key(i as u64),
        supply.contains_key((i - 1) as u64),
        ({
            let paid = headers[i].era_end->0.rewards@;
            &&& total_value(rewards[i]) == amounts_sum(paid, paid.len()) as real
            &&& supply[i as u64].value() - supply[(i - 1) as u64].value() == amounts_sum(
                paid,
                paid.len(),
            ) as real
        }),
{
    if rewards_fault(headers, highest_completed_height, rewards, supply, (i + 1) as nat) is Some {
        lemma_rewards_fault_stays(
            headers,
            highest_completed_height,
            rewards,
            supply,
            (i + 1) as nat,
            n,
        );
    }
    assert(era_rewards_fault(headers[i], i as u64, rewards[i], supply) is None);
    let paid = total_amount(headers[i].era_end->0.rewards@)->0;
    lemma_integer(paid);
    lemma_ordered_total_value(rewards[i]);
    lemma_difference_value(supply[i as u64], supply[(i - 1) as u64]);
}

/// What an error of the check of an era's rewards names is so: where the amounts can be computed, a
/// mismatch is one of numbers.
pub proof fn lemma_rewards_errors(
    header: BlockHeader,
    era: u64,
    rewards: Map<u64, Rational>,
    supply: Map<u64, Rational>,
)
    requires
        era > 0,
        map_wf(rewards),
        rewards.dom().finite(),
        map_wf(supply),
    ensures
        era_rewards_fault(header, era, rewards, supply) matches Some(error) ==> {
            let paid = header.era_end->0.rewards@;
            let sum_paid = amounts_sum(paid, paid.len());
            match error {
                AuditError::MissingEraEnd => header.era_end is None,
                AuditError::AmountOverflow => sum_paid > u64::MAX,
                AuditError::RewardsMismatch { era: e } => e == era && total_value(rewards)
                    != sum_paid as real,
                AuditError::MissingSupply => !supply.contains_key(era) || !supply.contains_key(
                    (era - 1) as u64,
                ),
                AuditError::GrowthMismatch { era: e } => e == era && supply[era].value()
                    - supply[(era - 1) as u64].value() != sum_paid as real,
                AuditError::Arithmetic => ordered_total(rewards) is None || difference(
                    supply[era],
                    supply[(era - 1) as u64],
                ) is None,
                _ => false,
            }
        },
{
    if let Some(end) = header.era_end {
        if let Some(paid) = total_amount(end.rewards@) {
            lemma_integer(paid);
            lemma_ordered_total_value(rewards);
            if let Some(owed) = ordered_total(rewards) {
                if owed.value() == integer(paid).value() {
                    lemma_lowest_terms_unique(owed, integer(paid));
                }
                if supply.contains_key(era) && supply.contains_key((era - 1) as u64) {
                    lemma_difference_value(supply[era], supply[(era - 1) as u64]);
                    if let Some(growth) = difference(supply[era], supply[(era - 1) as u64]) {
                        if growth.value() == owed.value() {
                            lemma_lowest_terms_unique(growth, owed);
                        }
                    }
                }
            }
        }
    }
}

/// An error of the check of the rewards comes from an era after the first one whose switch block the
/// node has.
pub proof fn lemma_rewards_error_of_era(
    headers: Seq<BlockHeader>,
    highest_completed_height: u64,
    rewards: Seq<Map<u64, Rational>>,
    supply: Map<u64, Rational>,
    n: nat,
)
    requires
        n <= headers.len(),
    ensures
        rewards_fault(headers, highest_completed_height, rewards, supply, n) matches Some(error)
            ==> exists|i: int|
            #![trigger headers[i]]
            {
                &&& 0 < i < n
                &&& headers[i].height <= highest_completed_height
                &&& era_rewards_fault(headers[i], i as u64, rewards[i], supply) == Some(error)
            },
    decreases n,
{
    if n > 0 {
        lemma_rewards_error_of_era(
            headers,
            highest_completed_height,
            rewards,
            supply,
            (n - 1) as nat,
        );
        let last = headers[n - 1];
        assert(headers[n - 1] == last);
    }
}

} // verus!
