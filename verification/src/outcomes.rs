//! What a finished run of a test network must have left behind.

use crate::ordered::{in_order, lemma_in_order_lists, list_entries};
use crate::primitives::{EraId, PublicKey};
use crate::switch_blocks::{has_key, Bid, Bids, BlockHeader, SwitchBlocks};
use crate::u512::U512;
use std::collections::BTreeMap;
use vstd::prelude::*;

verus! {

/// The bid of a key.
pub open spec fn bid_of(bids: Seq<(PublicKey, Bid)>, key: PublicKey) -> Option<Bid>
    decreases bids.len(),
{
    if bids.len() == 0 {
        None
    } else if bids[0].0 == key {
        Some(bids[0].1)
    } else {
        bid_of(bids.skip(1), key)
    }
}

fn find_bid(bids: &Bids, key: PublicKey) -> (r: Option<Bid>)
    ensures
        r == bid_of(bids@, key),
{
    let mut i: usize = 0;
    assert(bids@.skip(0) =~= bids@);
    while i < bids.len()
        invariant
            i <= bids@.len(),
            bid_of(bids@, key) == bid_of(bids@.skip(i as int), key),
        decreases bids@.len() - i,
    {
        assert(bids@.skip(i as int)[0] == bids@[i as int]);
        assert(bids@.skip(i as int).skip(1) =~= bids@.skip(i + 1));
        if bids[i].0 == key {
            return Some(bids[i].1);
        }
        i += 1;
    }
    None
}

fn is_only(keys: &[PublicKey], key: PublicKey) -> (r: bool)
    ensures
        r == (keys@ == seq![key]),
{
    if keys.len() == 1 && keys[0] == key {
        assert(keys@ =~= seq![key]);
        true
    } else {
        assert(keys@.len() != 1 || keys@[0] != seq![key][0]);
        false
    }
}

/// What is wrong with a run in which a validator runs two nodes, and another one runs none.
#[derive(Clone, Copy, Debug, PartialEq, Eq, Structural)]
pub enum EquivocatorFault {
    /// The era has other equivocators than it should.
    WrongEquivocators {
        /// The era.
        era_number: u64,
    },
    /// There is no bid of the key at the end of the era.
    MissingBid {
        /// The era.
        era_number: u64,
        /// The key.
        public_key: PublicKey,
    },
    /// The equivocator's bid has not been deactivated at the end of the era.
    ActiveBid {
        /// The era.
        era_number: u64,
    },
    /// The equivocator is no validator of the era's successor, though eviction is delayed.
    EvictedEarly {
        /// The era.
        era_number: u64,
    },
    /// The equivocator still is a validator of the era's successor.
    NotEvicted {
        /// The era.
        era_number: u64,
    },
    /// The era has other inactive validators than it should.
    WrongInactive {
        /// The era.
        era_number: u64,
    },
    /// A stake has been reduced at the end of the era.
    StakeReduced {
        /// The era.
        era_number: u64,
        /// The key of the stake.
        public_key: PublicKey,
    },
}

/// What is wrong with the equivocator's bid at the end of an era.
pub open spec fn bid_fault(
    bids: Seq<Bids>,
    era_number: u64,
    public_key: PublicKey,
) -> Option<EquivocatorFault> {
    match bid_of(bids[era_number as int]@, public_key) {
        None => Some(EquivocatorFault::MissingBid { era_number, public_key }),
        Some(bid) => if bid.inactive {
            None
        } else {
            Some(EquivocatorFault::ActiveBid { era_number })
        },
    }
}

fn check_bid(bids: &Vec<Bids>, era_number: u64, public_key: PublicKey) -> (r: Option<
    EquivocatorFault,
>)
    requires
        era_number < bids@.len(),
    ensures
        r == bid_fault(bids@, era_number, public_key),
{
    assert(bids.len() == bids@.len());
    match find_bid(&bids[era_number as usize], public_key) {
        None => Some(EquivocatorFault::MissingBid { era_number, public_key }),
        Some(bid) => if bid.inactive {
            None
        } else {
            Some(EquivocatorFault::ActiveBid { era_number })
        },
    }
}

/// What is wrong with an era in which the validator was caught: it must be the only equivocator, its
/// bid must be inactive, and it must still be a validator of the next era.
pub open spec fn caught_fault(
    blocks: SwitchBlocks,
    bids: Seq<Bids>,
    era_number: u64,
    public_key: PublicKey,
) -> Option<EquivocatorFault> {
    let end = blocks.headers@[era_number as int].era_end->0;
    if end.era_report.equivocators@ != seq![public_key] {
        Some(EquivocatorFault::WrongEquivocators { era_number })
    } else if bid_fault(bids, era_number, public_key) is Some {
        bid_fault(bids, era_number, public_key)
    } else if !has_key(end.next_era_validator_weights.entries@, public_key) {
        Some(EquivocatorFault::EvictedEarly { era_number })
    } else {
        None
    }
}

fn check_caught(
    blocks: &SwitchBlocks,
    bids: &Vec<Bids>,
    era_number: u64,
    public_key: PublicKey,
) -> (r: Option<EquivocatorFault>)
    requires
        blocks.ends(era_number),
        era_number < bids@.len(),
    ensures
        r == caught_fault(*blocks, bids@, era_number, public_key),
{
    if !is_only(blocks.equivocators(era_number), public_key) {
        return Some(EquivocatorFault::WrongEquivocators { era_number });
    }
    let fault: Option<EquivocatorFault> = check_bid(bids, era_number, public_key);
    if fault.is_some() {
        return fault;
    }
    if !blocks.next_era_validators(era_number).contains_key(public_key) {
        return Some(EquivocatorFault::EvictedEarly { era_number });
    }
    None
}

/// What is wrong with an era after the one in which the validator was caught: nobody equivocates, its
/// bid stays inactive, and it is no validator of the next era.
pub open spec fn banned_fault(
    blocks: SwitchBlocks,
    bids: Seq<Bids>,
    era_number: u64,
    public_key: PublicKey,
) -> Option<EquivocatorFault> {
    let end = blocks.headers@[era_number as int].era_end->0;
    if end.era_report.equivocators@.len() != 0 {
        Some(EquivocatorFault::WrongEquivocators { era_number })
    } else if bid_fault(bids, era_number, public_key) is Some {
        bid_fault(bids, era_number, public_key)
    } else if has_key(end.next_era_validator_weights.entries@, public_key) {
        Some(EquivocatorFault::NotEvicted { era_number })
    } else {
        None
    }
}

fn check_banned(
    blocks: &SwitchBlocks,
    bids: &Vec<Bids>,
    era_number: u64,
    public_key: PublicKey,
) -> (r: Option<EquivocatorFault>)
    requires
        blocks.ends(era_number),
        era_number < bids@.len(),
    ensures
        r == banned_fault(*blocks, bids@, era_number, public_key),
{
    if blocks.equivocators(era_number).len() != 0 {
        return Some(EquivocatorFault::WrongEquivocators { era_number });
    }
    let fault: Option<EquivocatorFault> = check_bid(bids, era_number, public_key);
    if fault.is_some() {
        return fault;
    }
    if blocks.next_era_validators(era_number).contains_key(public_key) {
        return Some(EquivocatorFault::NotEvicted { era_number });
    }
    None
}

/// What is wrong with an era in which exactly one validator is to be inactive.
pub open spec fn inactive_fault(
    blocks: SwitchBlocks,
    era_number: u64,
    public_key: PublicKey,
) -> Option<EquivocatorFault> {
    if blocks.headers@[era_number as int].era_end->0.era_report.inactive_validators@
        != seq![public_key] {
        Some(EquivocatorFault::WrongInactive { era_number })
    } else {
        None
    }
}

/// What is wrong with a key's bids at the ends of the first `n` eras: none may be less than the
/// key's stake.
pub open spec fn stake_fault(
    bids: Seq<Bids>,
    public_key: PublicKey,
    stake: U512,
    n: nat,
) -> Option<EquivocatorFault>
    decreases n,
{
    if n == 0 {
        None
    } else {
        let earlier = stake_fault(bids, public_key, stake, (n - 1) as nat);
        let era_number = (n - 1) as u64;
        if earlier is Some {
            earlier
        } else {
            match bid_of(bids[n - 1]@, public_key) {
                None => Some(EquivocatorFault::MissingBid { era_number, public_key }),
                Some(bid) => if bid.staked_amount@ >= stake@ {
                    None
                } else {
                    Some(EquivocatorFault::StakeReduced { era_number, public_key })
                },
            }
        }
    }
}

proof fn lemma_stake_fault_stays(
    bids: Seq<Bids>,
    public_key: PublicKey,
    stake: U512,
    n: nat,
    m: nat,
)
    requires
        n <= m,
        stake_fault(bids, public_key, stake, n) is Some,
    ensures
        stake_fault(bids, public_key, stake, m) == stake_fault(bids, public_key, stake, n),
    decreases m,
{
    if n < m {
        lemma_stake_fault_stays(bids, public_key, stake, n, (m - 1) as nat);
    }
}

fn check_stake(bids: &Vec<Bids>, public_key: PublicKey, stake: U512) -> (r: Option<
    EquivocatorFault,
>)
    requires
        bids@.len() <= u64::MAX,
    ensures
        r == stake_fault(bids@, public_key, stake, bids@.len()),
{
    let mut i: usize = 0;
    while i < bids.len()
        invariant
            i <= bids@.len() <= u64::MAX,
            stake_fault(bids@, public_key, stake, i as nat) is None,
        decreases bids@.len() - i,
    {
        let era_number: u64 = i as u64;
        let fault: Option<EquivocatorFault> = match find_bid(&bids[i], public_key) {
            None => Some(EquivocatorFault::MissingBid { era_number, public_key }),
            Some(bid) => if bid.staked_amount.at_least(&stake) {
                None
            } else {
                Some(EquivocatorFault::StakeReduced { era_number, public_key })
            },
        };
        assert(fault == stake_fault(bids@, public_key, stake, (i + 1) as nat));
        if fault.is_some() {
            proof {
                lemma_stake_fault_stays(bids@, public_key, stake, (i + 1) as nat, bids@.len());
            }
            return fault;
        }
        i += 1;
    }
    None
}

/// What is wrong with the bids of the first `n` stakes of a list.
pub open spec fn stakes_fault(
    bids: Seq<Bids>,
    stakes: Seq<(u64, U512)>,
    n: nat,
) -> Option<EquivocatorFault>
    decreases n,
{
    if n == 0 {
        None
    } else {
        let earlier = stakes_fault(bids, stakes, (n - 1) as nat);
        if earlier is Some {
            earlier
        } else {
            stake_fault(bids, stakes[n - 1].0, stakes[n - 1].1, bids.len())
        }
    }
}

proof fn lemma_stakes_fault_stays(bids: Seq<Bids>, stakes: Seq<(u64, U512)>, n: nat, m: nat)
    requires
        n <= m,
        stakes_fault(bids, stakes, n) is Some,
    ensures
        stakes_fault(bids, stakes, m) == stakes_fault(bids, stakes, n),
    decreases m,
{
    if n < m {
        lemma_stakes_fault_stays(bids, stakes, n, (m - 1) as nat);
    }
}

fn check_stakes(bids: &Vec<Bids>, stakes: &BTreeMap<u64, U512>) -> (r: Option<EquivocatorFault>)
    requires
        bids@.len() <= u64::MAX,
    ensures
        r == stakes_fault(bids@, in_order(stakes@), in_order(stakes@).len()),
{
    let entries: Vec<(u64, U512)> = list_entries(stakes);
    let mut i: usize = 0;
    while i < entries.len()
        invariant
            i <= entries@.len(),
            bids@.len() <= u64::MAX,
            entries@ == in_order(stakes@),
            stakes_fault(bids@, entries@, i as nat) is None,
        decreases entries@.len() - i,
    {
        let fault: Option<EquivocatorFault> = check_stake(bids, entries[i].0, entries[i].1);
        if fault.is_some() {
            proof {
                lemma_stakes_fault_stays(bids@, entries@, (i + 1) as nat, entries@.len());
            }
            return fault;
        }
        i += 1;
    }
    None
}

/// No stake was ever reduced where no fault is found in the bids.
pub proof fn lemma_stakes_never_reduced(
    bids: Seq<Bids>,
    stakes: Seq<(u64, U512)>,
    i: int,
    era: int,
)
    requires
        stakes_fault(bids, stakes, stakes.len()) is None,
        0 <= i < stakes.len(),
        0 <= era < bids.len(),
    ensures
        bid_of(bids[era]@, stakes[i].0) is Some,
        bid_of(bids[era]@, stakes[i].0)->0.staked_amount@ >= stakes[i].1@,
{
    if stakes_fault(bids, stakes, (i + 1) as nat) is Some {
        lemma_stakes_fault_stays(bids, stakes, (i + 1) as nat, stakes.len());
    }
    let (key, stake) = stakes[i];
    if stake_fault(bids, key, stake, (era + 1) as nat) is Some {
        lemma_stake_fault_stays(bids, key, stake, (era + 1) as nat, bids.len());
    }
}

/// How many eras later than in era 1 the equivocation happened, if it happened at all.
pub open spec fn equivocation_delay(blocks: SwitchBlocks) -> Option<u64> {
    if blocks.headers@[1].era_end->0.era_report.equivocators@.len() > 0 {
        Some(0)
    } else if blocks.headers@[2].era_end->0.era_report.equivocators@.len() > 0 {
        Some(1)
    } else {
        None
    }
}

/// The first of two faults.
pub open spec fn first_fault(
    a: Option<EquivocatorFault>,
    b: Option<EquivocatorFault>,
) -> Option<EquivocatorFault> {
    if a is Some {
        a
    } else {
        b
    }
}

/// What is wrong with a run in which `equivocator` was caught `delay` eras after era 1, and `absent`
/// took no part.
pub open spec fn run_fault(
    blocks: SwitchBlocks,
    bids: Seq<Bids>,
    equivocator: PublicKey,
    absent: PublicKey,
    stakes: Map<u64, U512>,
    delay: u64,
) -> Option<EquivocatorFault> {
    let caught = caught_fault(blocks, bids, (1 + delay) as u64, equivocator);
    let banned = banned_fault(blocks, bids, (2 + delay) as u64, equivocator);
    let evicted = if delay == 0 {
        banned_fault(blocks, bids, 3, equivocator)
    } else {
        None
    };
    let inactive = first_fault(
        inactive_fault(blocks, 1, absent),
        inactive_fault(blocks, 2, absent),
    );
    let reduced = stakes_fault(bids, in_order(stakes), in_order(stakes).len());
    first_fault(caught, first_fault(banned, first_fault(evicted, first_fault(inactive, reduced))))
}

/// The number of eras of a run in which a validator equivocates.
pub const EQUIVOCATOR_ERAS: u64 = 4;

/// Checks a run in which `equivocator` runs two nodes and `absent` none. The result says how many
/// eras after era 1 the equivocation happened; where it did not happen, there is nothing to check.
pub fn check_equivocator_run(
    blocks: &SwitchBlocks,
    bids: &Vec<Bids>,
    equivocator: PublicKey,
    absent: PublicKey,
    stakes: &BTreeMap<u64, U512>,
) -> (r: Result<Option<u64>, EquivocatorFault>)
    requires
        forall|era_number: u64|
            era_number < EQUIVOCATOR_ERAS ==> #[trigger] blocks.ends(era_number),
        bids@.len() == EQUIVOCATOR_ERAS,
    ensures
        r == (match equivocation_delay(*blocks) {
            None => Ok(None),
            Some(delay) => match run_fault(*blocks, bids@, equivocator, absent, stakes@, delay) {
                None => Ok(Some(delay)),
                Some(fault) => Err(fault),
            },
        }),
        r matches Ok(Some(delay)) ==> {
            &&& delay <= 1
            &&& forall|e: int| #![trigger bids@[e]] 1 + delay <= e <= 3 ==> exists|j: int|
                {
                    &&& 0 <= j < bids@[e]@.len()
                    &&& (#[trigger] bids@[e]@[j]).0 == equivocator
                    &&& bids@[e]@[j].1.inactive
                }
            &&& forall|e: int|
                #![trigger blocks.headers@[e]]
                2 + delay <= e <= 3 ==> blocks.headers@[e].era_end->0.era_report.equivocators@.len()
                    == 0
            &&& forall|e: int, j: int|
                #![trigger blocks.headers@[e].era_end->0.next_era_validator_weights.entries@[j]]
                2 + delay <= e <= 3 && 0 <= j
                    < blocks.headers@[e].era_end->0.next_era_validator_weights.entries@.len()
                    ==> blocks.headers@[e].era_end->0.next_era_validator_weights.entries@[j].0
                    != equivocator
        },
{
    assert(blocks.ends(1) && blocks.ends(2) && blocks.ends(3));
    let delay: u64 = if blocks.equivocators(1).len() != 0 {
        0
    } else if blocks.equivocators(2).len() != 0 {
        1
    } else {
        return Ok(None);
    };
    // The validator is evicted with a delay of one era.
    if let Some(fault) = check_caught(blocks, bids, 1 + delay, equivocator) {
        return Err(fault);
    }
    // A banned validator counts neither as faulty nor as inactive.
    if let Some(fault) = check_banned(blocks, bids, 2 + delay, equivocator) {
        return Err(fault);
    }
    if delay == 0 {
        if let Some(fault) = check_banned(blocks, bids, 3, equivocator) {
            return Err(fault);
        }
    }
    if !is_only(blocks.inactive_validators(1), absent) {
        return Err(EquivocatorFault::WrongInactive { era_number: 1 });
    }
    if !is_only(blocks.inactive_validators(2), absent) {
        return Err(EquivocatorFault::WrongInactive { era_number: 2 });
    }
    match check_stakes(bids, stakes) {
        Some(fault) => Err(fault),
        None => {
            proof {
                lemma_accepted_run(*blocks, bids@, equivocator, absent, stakes@, delay);
            }
            Ok(Some(delay))
        },
    }
}

/// Why a stored block is not the switch block of the era that it should end.
#[derive(Clone, Copy, Debug, PartialEq, Eq, Structural)]
pub enum SwitchBlockFault {
    /// The block belongs to another era.
    WrongEra,
    /// The block is no switch block.
    NotASwitchBlock,
}

/// Checks that a header is that of the switch block of the given era.
pub fn check_switch_block(header: &BlockHeader, era_id: EraId) -> (r: Result<(), SwitchBlockFault>)
    ensures
        r == (if header.era_id != era_id {
            Err(SwitchBlockFault::WrongEra)
        } else if header.era_end is None {
            Err(SwitchBlockFault::NotASwitchBlock)
        } else {
            Ok(())
        }),
{
    if header.era_id != era_id {
        Err(SwitchBlockFault::WrongEra)
    } else if header.era_end.is_none() {
        Err(SwitchBlockFault::NotASwitchBlock)
    } else {
        Ok(())
    }
}

/// What is wrong with a run in which a validator accuses everyone else.
#[derive(Debug)]
pub enum AccusationFault {
    /// The era has equivocators, though nobody equivocated.
    Equivocators,
    /// Somebody else than the accuser is inactive.
    UnexpectedInactive(Vec<PublicKey>),
}

/// Checks that accusations had no effect in era 0: nobody counts as an equivocator, and at most the
/// accuser as inactive.
pub fn check_accusations_ignored(blocks: &SwitchBlocks, accuser: PublicKey) -> (r: Result<
    (),
    AccusationFault,
>)
    requires
        blocks.ends(0),
    ensures
        ({
            let report = blocks.headers@[0].era_end->0.era_report;
            match r {
                Ok(_) => report.equivocators@.len() == 0 && (report.inactive_validators@.len() == 0
                    || report.inactive_validators@ == seq![accuser]),
                Err(AccusationFault::Equivocators) => report.equivocators@.len() > 0,
                Err(AccusationFault::UnexpectedInactive(keys)) => {
                    &&& report.equivocators@.len() == 0
                    &&& report.inactive_validators@.len() > 0
                    &&& report.inactive_validators@ != seq![accuser]
                    &&& keys@ == report.inactive_validators@
                },
            }
        }),
{
    if blocks.equivocators(0).len() != 0 {
        return Err(AccusationFault::Equivocators);
    }
    let inactive: &[PublicKey] = blocks.inactive_validators(0);
    if inactive.len() == 0 || is_only(inactive, accuser) {
        return Ok(());
    }
    let mut keys: Vec<PublicKey> = Vec::new();
    let mut i: usize = 0;
    while i < inactive.len()
        invariant
            i <= inactive@.len(),
            keys@ == inactive@.take(i as int),
        decreases inactive@.len() - i,
    {
        keys.push(inactive[i]);
        i += 1;
        assert(keys@ =~= inactive@.take(i as int));
    }
    assert(keys@ =~= inactive@);
    Err(AccusationFault::UnexpectedInactive(keys))
}

/// Tells whether all bids have grown beyond the stake that every validator began with.
pub fn stakes_have_grown(bids: &Bids, stake: u64) -> (r: bool)
    ensures
        r <==> forall|i: int|
            0 <= i < bids@.len() ==> (#[trigger] bids@[i]).1.staked_amount@ > stake,
{
    let before: U512 = U512::from_u64(stake);
    let mut i: usize = 0;
    while i < bids.len()
        invariant
            i <= bids@.len(),
            before@ == stake,
            forall|j: int| 0 <= j < i ==> (#[trigger] bids@[j]).1.staked_amount@ > stake,
        decreases bids@.len() - i,
    {
        if before.at_least(&bids[i].1.staked_amount) {
            assert(bids@[i as int].1.staked_amount@ <= stake);
            return false;
        }
        i += 1;
    }
    true
}

/// The bid of a key is the first one that the list has for it, and there is none only where the list
/// has none.
pub proof fn lemma_bid_of(bids: Seq<(PublicKey, Bid)>, key: PublicKey)
    ensures
        match bid_of(bids, key) {
            Some(bid) => exists|j: int|
                {
                    &&& 0 <= j < bids.len()
                    &&& (#[trigger] bids[j]).0 == key
                    &&& bids[j].1 == bid
                    &&& forall|before: int| 0 <= before < j ==> (#[trigger] bids[before]).0 != key
                },
            None => forall|j: int| 0 <= j < bids.len() ==> (#[trigger] bids[j]).0 != key,
        },
    decreases bids.len(),
{
    if bids.len() > 0 && bids[0].0 != key {
        let rest = bids.skip(1);
        lemma_bid_of(rest, key);
        match bid_of(rest, key) {
            Some(bid) => {
                let j = choose|j: int|
                    {
                        &&& 0 <= j < rest.len()
                        &&& (#[trigger] rest[j]).0 == key
                        &&& rest[j].1 == bid
                        &&& forall|before: int|
                            0 <= before < j ==> (#[trigger] rest[before]).0 != key
                    };
                assert(bids[j + 1] == rest[j]);
                assert forall|before: int| 0 <= before < j + 1 implies (
                #[trigger] bids[before]).0 != key by {
                    if before > 0 {
                        assert(bids[before] == rest[before - 1]);
                    }
                }
            },
            None => {
                assert forall|j: int| 0 <= j < bids.len() implies (#[trigger] bids[j]).0
                    != key by {
                    if j > 0 {
                        assert(bids[j] == rest[j - 1]);
                    }
                }
            },
        }
    }
}

/// The first entry for a key is its bid.
proof fn lemma_first_bid(bids: Seq<(PublicKey, Bid)>, key: PublicKey, j: int)
    requires
        0 <= j < bids.len(),
        bids[j].0 == key,
        forall|before: int| 0 <= before < j ==> (#[trigger] bids[before]).0 != key,
    ensures
        bid_of(bids, key) == Some(bids[j].1),
{
    lemma_bid_of(bids, key);
    if let Some(bid) = bid_of(bids, key) {
        let i = choose|i: int|
            {
                &&& 0 <= i < bids.len()
                &&& (#[trigger] bids[i]).0 == key
                &&& bids[i].1 == bid
                &&& forall|before: int| 0 <= before < i ==> (#[trigger] bids[before]).0 != key
            };
        assert(i == j);
    }
}

/// The equivocation counts from the first of the eras 1 and 2 that reports an equivocator.
pub proof fn lemma_equivocation_delay(blocks: SwitchBlocks)
    ensures
        equivocation_delay(blocks) == Some(0u64)
            <==> blocks.headers@[1].era_end->0.era_report.equivocators@.len() > 0,
        equivocation_delay(blocks) == Some(1u64) <==> {
            &&& blocks.headers@[1].era_end->0.era_report.equivocators@.len() == 0
            &&& blocks.headers@[2].era_end->0.era_report.equivocators@.len() > 0
        },
        equivocation_delay(blocks) is None <==> {
            &&& blocks.headers@[1].era_end->0.era_report.equivocators@.len() == 0
            &&& blocks.headers@[2].era_end->0.era_report.equivocators@.len() == 0
        },
{
}

/// In a run without a fault all of this holds. From the era in which the equivocator is caught on, its
/// bid is there and inactive. In that era it is the only equivocator, and it still is one of the next
/// validators. In all later eras nobody equivocates, and it is not one of the next validators. The
/// absent validator is the only inactive one in eras 1 and 2.
pub proof fn lemma_accepted_run(
    blocks: SwitchBlocks,
    bids: Seq<Bids>,
    equivocator: PublicKey,
    absent: PublicKey,
    stakes: Map<u64, U512>,
    delay: u64,
)
    requires
        delay <= 1,
        bids.len() == 4,
        run_fault(blocks, bids, equivocator, absent, stakes, delay) is None,
    ensures
        forall|e: int| #![trigger bids[e]] 1 + delay <= e <= 3 ==> exists|j: int|
            {
                &&& 0 <= j < bids[e]@.len()
                &&& (#[trigger] bids[e]@[j]).0 == equivocator
                &&& bids[e]@[j].1.inactive
                &&& forall|before: int|
                    0 <= before < j ==> (#[trigger] bids[e]@[before]).0 != equivocator
            },
        blocks.headers@[1 + delay].era_end->0.era_report.equivocators@ == seq![equivocator],
        forall|e: int|
            #![trigger blocks.headers@[e]]
            e == 1 + delay ==> exists|j: int|
                0 <= j < blocks.headers@[e].era_end->0.next_era_validator_weights.entries@.len()
                    && blocks.headers@[e].era_end->0.next_era_validator_weights.entries@[j].0
                    == equivocator,
        forall|e: int|
            #![trigger blocks.headers@[e]]
            2 + delay <= e <= 3 ==> blocks.headers@[e].era_end->0.era_report.equivocators@.len()
                == 0,
        forall|e: int, j: int|
            #![trigger blocks.headers@[e].era_end->0.next_era_validator_weights.entries@[j]]
            2 + delay <= e <= 3 && 0 <= j
                < blocks.headers@[e].era_end->0.next_era_validator_weights.entries@.len()
                ==> blocks.headers@[e].era_end->0.next_era_validator_weights.entries@[j].0
                != equivocator,
        blocks.headers@[1].era_end->0.era_report.inactive_validators@ == seq![absent],
        blocks.headers@[2].era_end->0.era_report.inactive_validators@ == seq![absent],
{
    assert forall|e: int| #![trigger bids[e]] 1 + delay <= e <= 3 implies exists|j: int|
        {
            &&& 0 <= j < bids[e]@.len()
            &&& (#[trigger] bids[e]@[j]).0 == equivocator
            &&& bids[e]@[j].1.inactive
            &&& forall|before: int|
                0 <= before < j ==> (#[trigger] bids[e]@[before]).0 != equivocator
        } by {
        lemma_bid_of(bids[e]@, equivocator);
        assert(bid_fault(bids, e as u64, equivocator) is None);
    }
}

/// In a run without a fault, every stake is covered at the end of every era by the first bid of its key.
pub proof fn lemma_accepted_stakes(
    blocks: SwitchBlocks,
    bids: Seq<Bids>,
    equivocator: PublicKey,
    absent: PublicKey,
    stakes: Map<u64, U512>,
    delay: u64,
    e: int,
    key: u64,
)
    requires
        bids.len() == 4,
        run_fault(blocks, bids, equivocator, absent, stakes, delay) is None,
        0 <= e <= 3,
        stakes.contains_key(key),
    ensures
        exists|j: int|
            {
                &&& 0 <= j < bids[e]@.len()
                &&& (#[trigger] bids[e]@[j]).0 == key
                &&& bids[e]@[j].1.staked_amount@ >= stakes[key]@
                &&& forall|before: int| 0 <= before < j ==> (#[trigger] bids[e]@[before]).0 != key
            },
{
    lemma_in_order_lists(stakes);
    let entries = in_order(stakes);
    let i = choose|i: int| 0 <= i < entries.len() && entries[i].0 == key;
    lemma_stakes_never_reduced(bids, entries, i, e);
    lemma_bid_of(bids[e]@, key);
}

/// A run in which all of that holds, for the equivocator, the absent validator and all stakes, is
/// without a fault.
pub proof fn lemma_right_run_accepted(
    blocks: SwitchBlocks,
    bids: Seq<Bids>,
    equivocator: PublicKey,
    absent: PublicKey,
    stakes: Map<u64, U512>,
    delay: u64,
)
    requires
        delay <= 1,
        bids.len() == 4,
        forall|e: int| #![trigger bids[e]] 1 + delay <= e <= 3 ==> exists|j: int|
            {
                &&& 0 <= j < bids[e]@.len()
                &&& (#[trigger] bids[e]@[j]).0 == equivocator
                &&& bids[e]@[j].1.inactive
                &&& forall|before: int|
                    0 <= before < j ==> (#[trigger] bids[e]@[before]).0 != equivocator
            },
        blocks.headers@[1 + delay].era_end->0.era_report.equivocators@ == seq![equivocator],
        forall|e: int|
            #![trigger blocks.headers@[e]]
            e == 1 + delay ==> exists|j: int|
                0 <= j < blocks.headers@[e].era_end->0.next_era_validator_weights.entries@.len()
                    && blocks.headers@[e].era_end->0.next_era_validator_weights.entries@[j].0
                    == equivocator,
        forall|e: int|
            #![trigger blocks.headers@[e]]
            2 + delay <= e <= 3 ==> blocks.headers@[e].era_end->0.era_report.equivocators@.len()
                == 0,
        forall|e: int, j: int|
            #![trigger blocks.headers@[e].era_end->0.next_era_validator_weights.entries@[j]]
            2 + delay <= e <= 3 && 0 <= j
                < blocks.headers@[e].era_end->0.next_era_validator_weights.entries@.len()
                ==> blocks.headers@[e].era_end->0.next_era_validator_weights.entries@[j].0
                != equivocator,
        blocks.headers@[1].era_end->0.era_report.inactive_validators@ == seq![absent],
        blocks.headers@[2].era_end->0.era_report.inactive_validators@ == seq![absent],
        forall|e: int, key: u64|
            #![trigger bids[e], stakes.contains_key(key)]
            0 <= e <= 3 && stakes.contains_key(key) ==> exists|j: int|
                {
                    &&& 0 <= j < bids[e]@.len()
                    &&& (#[trigger] bids[e]@[j]).0 == key
                    &&& bids[e]@[j].1.staked_amount@ >= stakes[key]@
                    &&& forall|before: int|
                        0 <= before < j ==> (#[trigger] bids[e]@[before]).0 != key
                },
    ensures
        run_fault(blocks, bids, equivocator, absent, stakes, delay) is None,
{
    lemma_in_order_lists(stakes);
    let entries = in_order(stakes);
    assert forall|era_number: u64| 1 + delay <= era_number <= 3 implies (
    #[trigger] bid_fault(bids, era_number, equivocator)) is None by {
        let e = era_number as int;
        let j = choose|j: int|
            {
                &&& 0 <= j < bids[e]@.len()
                &&& (#[trigger] bids[e]@[j]).0 == equivocator
                &&& bids[e]@[j].1.inactive
                &&& forall|before: int|
                    0 <= before < j ==> (#[trigger] bids[e]@[before]).0 != equivocator
            };
        lemma_first_bid(bids[e]@, equivocator, j);
    }
    assert(bid_fault(bids, (1 + delay) as u64, equivocator) is None);
    assert(caught_fault(blocks, bids, (1 + delay) as u64, equivocator) is None);
    assert(blocks.headers@[2 + delay].era_end->0.era_report.equivocators@.len() == 0);
    assert(bid_fault(bids, (2 + delay) as u64, equivocator) is None);
    assert(banned_fault(blocks, bids, (2 + delay) as u64, equivocator) is None);
    if delay == 0 {
        assert(blocks.headers@[3].era_end->0.era_report.equivocators@.len() == 0);
        assert(bid_fault(bids, 3, equivocator) is None);
        assert(banned_fault(blocks, bids, 3, equivocator) is None);
    }
    assert forall|i: int, e: int|
        0 <= i < entries.len() && 0 <= e <= 3 implies bid_of(
        #[trigger] bids[e]@,
        (#[trigger] entries[i]).0,
    ) matches Some(bid) && bid.staked_amount@ >= entries[i].1@ by {
        let key = entries[i].0;
        assert(stakes.contains_key(key));
        let j = choose|j: int|
            {
                &&& 0 <= j < bids[e]@.len()
                &&& (#[trigger] bids[e]@[j]).0 == key
                &&& bids[e]@[j].1.staked_amount@ >= stakes[key]@
                &&& forall|before: int|
                    0 <= before < j ==> (#[trigger] bids[e]@[before]).0 != key
            };
        lemma_first_bid(bids[e]@, key, j);
    }
    lemma_covered_stakes(bids, entries, entries.len());
}

proof fn lemma_covered_stake(bids: Seq<Bids>, key: PublicKey, stake: U512, n: nat)
    requires
        n <= bids.len(),
        forall|e: int|
            0 <= e < bids.len() ==> (bid_of(#[trigger] bids[e]@, key) matches Some(bid)
                && bid.staked_amount@ >= stake@),
    ensures
        stake_fault(bids, key, stake, n) is None,
    decreases n,
{
    if n > 0 {
        lemma_covered_stake(bids, key, stake, (n - 1) as nat);
        assert(bid_of(bids[n - 1]@, key) is Some);
    }
}

proof fn lemma_covered_stakes(bids: Seq<Bids>, entries: Seq<(u64, U512)>, n: nat)
    requires
        n <= entries.len(),
        forall|i: int, e: int|
            0 <= i < entries.len() && 0 <= e < bids.len() ==> (bid_of(
                #[trigger] bids[e]@,
                (#[trigger] entries[i]).0,
            ) matches Some(bid) && bid.staked_amount@ >= entries[i].1@),
    ensures
        stakes_fault(bids, entries, n) is None,
    decreases n,
{
    if n > 0 {
        lemma_covered_stakes(bids, entries, (n - 1) as nat);
        let (key, stake) = entries[n - 1];
        assert forall|e: int| 0 <= e < bids.len() implies (bid_of(#[trigger] bids[e]@, key) matches Some(
            bid,
        ) && bid.staked_amount@ >= stake@) by {
            assert(entries[n - 1].0 == key);
        }
        lemma_covered_stake(bids, key, stake, bids.len());
    }
}

/// What a fault names is so, at the end of the era that it names.
pub proof fn lemma_run_errors(
    blocks: SwitchBlocks,
    bids: Seq<Bids>,
    equivocator: PublicKey,
    absent: PublicKey,
    stakes: Map<u64, U512>,
    delay: u64,
)
    requires
        delay <= 1,
        bids.len() == 4,
    ensures
        run_fault(blocks, bids, equivocator, absent, stakes, delay) matches Some(fault)
            ==> match fault {
            EquivocatorFault::WrongEquivocators { era_number: e } => {
                let found = blocks.headers@[e as int].era_end->0.era_report.equivocators@;
                &&& 1 + delay <= e <= 3
                &&& e == 1 + delay ==> found != seq![equivocator]
                &&& e > 1 + delay ==> found.len() > 0
            },
            EquivocatorFault::MissingBid { era_number: e, public_key } => {
                &&& e <= 3
                &&& public_key == equivocator || stakes.contains_key(public_key)
                &&& forall|j: int|
                    0 <= j < bids[e as int]@.len() ==> (#[trigger] bids[e as int]@[j]).0
                        != public_key
            },
            EquivocatorFault::ActiveBid { era_number: e } => 1 + delay <= e <= 3 && exists|j: int|
                {
                    &&& 0 <= j < bids[e as int]@.len()
                    &&& (#[trigger] bids[e as int]@[j]).0 == equivocator
                    &&& !bids[e as int]@[j].1.inactive
                },
            EquivocatorFault::EvictedEarly { era_number: e } => e == 1 + delay && forall|j: int|
                #![trigger blocks.headers@[e as int].era_end->0.next_era_validator_weights.entries@[j]]
                0 <= j < blocks.headers@[e as int].era_end->0.next_era_validator_weights.entries@.len()
                    ==> blocks.headers@[e as int].era_end->0.next_era_validator_weights.entries@[j].0
                    != equivocator,
            EquivocatorFault::NotEvicted { era_number: e } => 2 + delay <= e <= 3 && exists|j: int|
                #![trigger blocks.headers@[e as int].era_end->0.next_era_validator_weights.entries@[j]]
                0 <= j < blocks.headers@[e as int].era_end->0.next_era_validator_weights.entries@.len()
                    && blocks.headers@[e as int].era_end->0.next_era_validator_weights.entries@[j].0
                    == equivocator,
            EquivocatorFault::WrongInactive { era_number: e } => {
                &&& 1 <= e <= 2
                &&& blocks.headers@[e as int].era_end->0.era_report.inactive_validators@
                    != seq![absent]
            },
            EquivocatorFault::StakeReduced { era_number: e, public_key } => {
                &&& e <= 3
                &&& stakes.contains_key(public_key)
                &&& exists|j: int|
                    {
                        &&& 0 <= j < bids[e as int]@.len()
                        &&& (#[trigger] bids[e as int]@[j]).0 == public_key
                        &&& bids[e as int]@[j].1.staked_amount@ < stakes[public_key]@
                    }
            },
        },
{
    lemma_in_order_lists(stakes);
    let entries = in_order(stakes);
    lemma_bid_of(bids[1]@, equivocator);
    lemma_bid_of(bids[2]@, equivocator);
    lemma_bid_of(bids[3]@, equivocator);
    lemma_stakes_errors(bids, entries, entries.len());
    let e1 = (1 + delay) as u64;
    let e2 = (2 + delay) as u64;
    assert(e1 == 1 || e1 == 2);
    assert(e2 == 2 || e2 == 3);
    let caught = caught_fault(blocks, bids, e1, equivocator);
    let banned = banned_fault(blocks, bids, e2, equivocator);
    let fault = run_fault(blocks, bids, equivocator, absent, stakes, delay);
    if caught is None && banned is None && (delay > 0 || banned_fault(
        blocks,
        bids,
        3,
        equivocator,
    ) is None) && inactive_fault(blocks, 1, absent) is None && inactive_fault(
        blocks,
        2,
        absent,
    ) is None {
        assert(fault == stakes_fault(bids, entries, entries.len()));
        match fault {
            Some(EquivocatorFault::MissingBid { era_number, public_key }) => {
                let i = choose|i: int|
                    0 <= i < entries.len() && (#[trigger] entries[i]).0 == public_key;
                assert(stakes.contains_key(entries[i].0));
            },
            Some(EquivocatorFault::StakeReduced { era_number, public_key }) => {
                let i = choose|i: int|
                    {
                        &&& 0 <= i < entries.len()
                        &&& (#[trigger] entries[i]).0 == public_key
                        &&& exists|j: int|
                            {
                                &&& 0 <= j < bids[era_number as int]@.len()
                                &&& (#[trigger] bids[era_number as int]@[j]).0 == public_key
                                &&& bids[era_number as int]@[j].1.staked_amount@ < entries[i].1@
                            }
                    };
                assert(stakes.contains_key(entries[i].0));
                assert(stakes[public_key] == entries[i].1);
            },
            _ => {},
        }
    }
}

proof fn lemma_stake_errors(bids: Seq<Bids>, key: PublicKey, stake: U512, n: nat)
    requires
        n <= bids.len() <= u64::MAX,
    ensures
        stake_fault(bids, key, stake, n) matches Some(fault) ==> match fault {
            EquivocatorFault::MissingBid { era_number: e, public_key } => {
                &&& e < bids.len() && public_key == key
                &&& forall|j: int|
                    0 <= j < bids[e as int]@.len() ==> (#[trigger] bids[e as int]@[j]).0 != key
            },
            EquivocatorFault::StakeReduced { era_number: e, public_key } => {
                &&& e < bids.len() && public_key == key
                &&& exists|j: int|
                    {
                        &&& 0 <= j < bids[e as int]@.len()
                        &&& (#[trigger] bids[e as int]@[j]).0 == key
                        &&& bids[e as int]@[j].1.staked_amount@ < stake@
                    }
            },
            _ => false,
        },
    decreases n,
{
    if n > 0 {
        lemma_stake_errors(bids, key, stake, (n - 1) as nat);
        lemma_bid_of(bids[n - 1]@, key);
    }
}

proof fn lemma_stakes_errors(bids: Seq<Bids>, entries: Seq<(u64, U512)>, n: nat)
    requires
        n <= entries.len(),
        bids.len() <= u64::MAX,
    ensures
        stakes_fault(bids, entries, n) matches Some(fault) ==> match fault {
            EquivocatorFault::MissingBid { era_number: e, public_key } => {
                &&& e < bids.len()
                &&& exists|i: int| 0 <= i < entries.len() && (#[trigger] entries[i]).0 == public_key
                &&& forall|j: int|
                    0 <= j < bids[e as int]@.len() ==> (#[trigger] bids[e as int]@[j]).0
                        != public_key
            },
            EquivocatorFault::StakeReduced { era_number: e, public_key } => {
                &&& e < bids.len()
                &&& exists|i: int|
                    {
                        &&& 0 <= i < entries.len()
                        &&& (#[trigger] entries[i]).0 == public_key
                        &&& exists|j: int|
                            {
                                &&& 0 <= j < bids[e as int]@.len()
                                &&& (#[trigger] bids[e as int]@[j]).0 == public_key
                                &&& bids[e as int]@[j].1.staked_amount@ < entries[i].1@
                            }
                    }
            },
            _ => false,
        },
    decreases n,
{
    if n > 0 {
        lemma_stakes_errors(bids, entries, (n - 1) as nat);
        let (key, stake) = entries[n - 1];
        lemma_stake_errors(bids, key, stake, bids.len());
        assert(entries[n - 1].0 == key);
    }
}

} // verus!
