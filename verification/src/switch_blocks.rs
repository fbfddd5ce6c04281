//! Switch blocks: the last block of each era, and what it says about the era.

use crate::ordered::{lemma_lists_unique, lists};
use crate::primitives::{Digest, EraId, PublicKey};
use crate::u512::U512;
use vstd::prelude::*;

verus! {

/// Amounts by public key, in the order of the keys.
pub type Amounts = Vec<(PublicKey, U512)>;

/// The keys of a list are strictly increasing: none occurs twice.
pub open spec fn keys_increase<V>(entries: Seq<(PublicKey, V)>) -> bool {
    forall|i: int, j: int| 0 <= i < j < entries.len() ==> entries[i].0 < entries[j].0
}

/// Whether the list has an entry for `key`.
pub open spec fn has_key<V>(entries: Seq<(PublicKey, V)>, key: PublicKey) -> bool {
    exists|i: int| 0 <= i < entries.len() && entries[i].0 == key
}

/// The weights of the validators of an era.
#[derive(Debug)]
pub struct ValidatorWeights {
    /// The weight of each validator, in the order of the keys.
    pub entries: Amounts,
}

impl ValidatorWeights {
    /// Every validator occurs once, and the keys are in order.
    pub open spec fn wf(&self) -> bool {
        keys_increase(self.entries@)
    }

    /// Whether `key` is one of the validators.
    pub fn contains_key(&self, key: PublicKey) -> (r: bool)
        ensures
            r == has_key(self.entries@, key),
            r <==> exists|i: int| 0 <= i < self.entries@.len() && self.entries@[i].0 == key,
    {
        let mut i: usize = 0;
        while i < self.entries.len()
            invariant
                i <= self.entries@.len(),
                forall|j: int| 0 <= j < i ==> self.entries@[j].0 != key,
            decreases self.entries@.len() - i,
        {
            if self.entries[i].0 == key {
                return true;
            }
            i += 1;
        }
        false
    }
}

/// What an era's validators found out about each other.
#[derive(Debug)]
pub struct EraReport {
    /// The validators that equivocated.
    pub equivocators: Vec<PublicKey>,
    /// The validators that were not active.
    pub inactive_validators: Vec<PublicKey>,
}

/// What a switch block says about the era that it ends.
#[derive(Debug)]
pub struct EraEnd {
    /// What the validators found out about each other.
    pub era_report: EraReport,
    /// The weights of the validators of the next era.
    pub next_era_validator_weights: ValidatorWeights,
    /// What was paid out at the end of the era, in the order of the keys.
    pub rewards: Amounts,
}

impl EraEnd {
    /// The weights and the rewards are maps: every key occurs once, and the keys are in order.
    pub open spec fn wf(&self) -> bool {
        self.next_era_validator_weights.wf() && keys_increase(self.rewards@)
    }

    /// Whether the two say the same.
    pub open spec fn same(&self, other: &EraEnd) -> bool {
        &&& self.era_report.equivocators@ == other.era_report.equivocators@
        &&& self.era_report.inactive_validators@ == other.era_report.inactive_validators@
        &&& self.next_era_validator_weights.entries@ == other.next_era_validator_weights.entries@
        &&& self.rewards@ == other.rewards@
    }

    fn equals(&self, other: &EraEnd) -> (r: bool)
        ensures
            r == self.same(other),
    {
        same_keys(&self.era_report.equivocators, &other.era_report.equivocators) && same_keys(
            &self.era_report.inactive_validators,
            &other.era_report.inactive_validators,
        ) && same_amounts(
            &self.next_era_validator_weights.entries,
            &other.next_era_validator_weights.entries,
        ) && same_amounts(&self.rewards, &other.rewards)
    }

    fn duplicate(&self) -> (r: EraEnd)
        ensures
            r.same(self),
            self.wf() ==> r.wf(),
    {
        EraEnd {
            era_report: EraReport {
                equivocators: copy_keys(&self.era_report.equivocators),
                inactive_validators: copy_keys(&self.era_report.inactive_validators),
            },
            next_era_validator_weights: ValidatorWeights {
                entries: copy_amounts(&self.next_era_validator_weights.entries),
            },
            rewards: copy_amounts(&self.rewards),
        }
    }
}

/// Two well-formed ends of an era say the same where their reports are equal and their weights and
/// rewards are equal as maps: a map is listed in one way only.
pub proof fn lemma_same_maps_same_end(
    a: EraEnd,
    b: EraEnd,
    weights: Map<u64, U512>,
    rewards: Map<u64, U512>,
)
    requires
        a.era_report.equivocators@ == b.era_report.equivocators@,
        a.era_report.inactive_validators@ == b.era_report.inactive_validators@,
        lists(a.next_era_validator_weights.entries@, weights),
        lists(b.next_era_validator_weights.entries@, weights),
        lists(a.rewards@, rewards),
        lists(b.rewards@, rewards),
    ensures
        a.wf(),
        b.wf(),
        a.same(&b),
{
    lemma_lists_unique(
        a.next_era_validator_weights.entries@,
        b.next_era_validator_weights.entries@,
        weights,
    );
    lemma_lists_unique(a.rewards@, b.rewards@, rewards);
}

/// The header of a block.
#[derive(Debug)]
pub struct BlockHeader {
    /// The hash of the header, which stands for all that it holds besides the fields below.
    pub hash: Digest,
    /// The era of the block.
    pub era_id: EraId,
    /// The height of the block in the chain.
    pub height: u64,
    /// The root of the global state after the block.
    pub state_root_hash: Digest,
    /// Whether this is the genesis block.
    pub genesis: bool,
    /// What the block says about the end of its era, where it is a switch block.
    pub era_end: Option<EraEnd>,
}

impl BlockHeader {
    /// What the header says about the end of its era is well-formed.
    pub open spec fn wf(&self) -> bool {
        self.era_end matches Some(end) ==> end.wf()
    }

    /// Whether the two headers are equal.
    pub open spec fn same(&self, other: &BlockHeader) -> bool {
        &&& self.hash == other.hash
        &&& self.era_id == other.era_id
        &&& self.height == other.height
        &&& self.state_root_hash == other.state_root_hash
        &&& self.genesis == other.genesis
        &&& match (self.era_end, other.era_end) {
            (Some(a), Some(b)) => a.same(&b),
            (None, None) => true,
            _ => false,
        }
    }

    /// Compares two headers.
    pub fn equals(&self, other: &BlockHeader) -> (r: bool)
        ensures
            r == self.same(other),
    {
        self.hash == other.hash && self.era_id == other.era_id && self.height == other.height && self.state_root_hash
            == other.state_root_hash && self.genesis == other.genesis && match (
            &self.era_end,
            &other.era_end,
        ) {
            (Some(a), Some(b)) => a.equals(b),
            (None, None) => true,
            _ => false,
        }
    }

    /// An equal header.
    pub fn duplicate(&self) -> (r: BlockHeader)
        ensures
            r.same(self),
            self.wf() ==> r.wf(),
    {
        let era_end = match &self.era_end {
            Some(end) => Some(end.duplicate()),
            None => None,
        };
        BlockHeader {
            hash: self.hash,
            era_id: self.era_id,
            height: self.height,
            state_root_hash: self.state_root_hash,
            genesis: self.genesis,
            era_end,
        }
    }
}

fn same_keys(a: &Vec<PublicKey>, b: &Vec<PublicKey>) -> (r: bool)
    ensures
        r == (a@ == b@),
{
    if a.len() != b.len() {
        return false;
    }
    let mut i: usize = 0;
    while i < a.len()
        invariant
            i <= a@.len(),
            a@.len() == b@.len(),
            forall|j: int| 0 <= j < i ==> a@[j] == b@[j],
        decreases a@.len() - i,
    {
        if a[i] != b[i] {
            assert(a@[i as int] != b@[i as int]);
            return false;
        }
        i += 1;
    }
    assert(a@ =~= b@);
    true
}

fn same_amounts(a: &Amounts, b: &Amounts) -> (r: bool)
    ensures
        r == (a@ == b@),
{
    if a.len() != b.len() {
        return false;
    }
    let mut i: usize = 0;
    while i < a.len()
        invariant
            i <= a@.len(),
            a@.len() == b@.len(),
            forall|j: int| 0 <= j < i ==> a@[j] == b@[j],
        decreases a@.len() - i,
    {
        if a[i].0 != b[i].0 || a[i].1 != b[i].1 {
            assert(a@[i as int] != b@[i as int]);
            return false;
        }
        i += 1;
    }
    assert(a@ =~= b@);
    true
}

fn copy_keys(a: &Vec<PublicKey>) -> (r: Vec<PublicKey>)
    ensures
        r@ == a@,
{
    let mut out: Vec<PublicKey> = Vec::new();
    let mut i: usize = 0;
    while i < a.len()
        invariant
            i <= a@.len(),
            out@ == a@.take(i as int),
        decreases a@.len() - i,
    {
        out.push(a[i]);
        i += 1;
        assert(out@ =~= a@.take(i as int));
    }
    assert(out@ =~= a@);
    out
}

fn copy_amounts(a: &Amounts) -> (r: Amounts)
    ensures
        r@ == a@,
{
    let mut out: Amounts = Vec::new();
    let mut i: usize = 0;
    while i < a.len()
        invariant
            i <= a@.len(),
            out@ == a@.take(i as int),
        decreases a@.len() - i,
    {
        out.push((a[i].0, a[i].1));
        i += 1;
        assert(out@ =~= a@.take(i as int));
    }
    assert(out@ =~= a@);
    out
}

/// A validator's bid in the auction.
#[derive(Clone, Copy, Debug)]
pub struct Bid {
    /// Whether the bid has been deactivated.
    pub inactive: bool,
    /// The amount staked.
    pub staked_amount: U512,
}

/// The bids in the auction, in the order of the keys.
pub type Bids = Vec<(PublicKey, Bid)>;

/// The bids in the auction at a state.
#[derive(Debug)]
pub struct StateBids {
    /// The root of the state.
    pub state_root_hash: Digest,
    /// The bids.
    pub bids: Bids,
}

/// The bids that a node can give.
pub type NodeBids = Vec<StateBids>;

/// What a node answers when it is asked for the bids at the state with the given root.
pub open spec fn answer(node: Seq<StateBids>, root: Digest) -> Option<Bids>
    decreases node.len(),
{
    if node.len() == 0 {
        None
    } else if node[0].state_root_hash == root {
        Some(node[0].bids)
    } else {
        answer(node.skip(1), root)
    }
}

/// Whatever a node answers is well-formed where all bids that it can give are.
proof fn lemma_answer_in_order(node: Seq<StateBids>, root: Digest)
    requires
        forall|i: int| 0 <= i < node.len() ==> keys_increase((#[trigger] node[i]).bids@),
    ensures
        answer(node, root) matches Some(bids) ==> keys_increase(bids@),
    decreases node.len(),
{
    if node.len() > 0 && node[0].state_root_hash != root {
        assert forall|i: int| 0 <= i < node.skip(1).len() implies keys_increase(
            (#[trigger] node.skip(1)[i]).bids@,
        ) by {
            assert(node.skip(1)[i] == node[i + 1]);
        }
        lemma_answer_in_order(node.skip(1), root);
    }
}

/// All bids that the nodes can give are maps: every key occurs once, and the keys are in order.
pub open spec fn bids_wf(nodes: Seq<NodeBids>) -> bool {
    forall|node: int, i: int|
        #![trigger nodes[node]@[i]]
        0 <= node < nodes.len() && 0 <= i < nodes[node]@.len() ==> keys_increase(
            nodes[node]@[i].bids@,
        )
}

fn find_answer(node: &NodeBids, root: Digest) -> (r: Option<&Bids>)
    ensures
        r == (match answer(node@, root) {
            Some(bids) => Some(&bids),
            None => None,
        }),
{
    let mut i: usize = 0;
    assert(node@.skip(0) =~= node@);
    while i < node.len()
        invariant
            i <= node@.len(),
            answer(node@, root) == answer(node@.skip(i as int), root),
        decreases node@.len() - i,
    {
        assert(node@.skip(i as int)[0] == node@[i as int]);
        assert(node@.skip(i as int).skip(1) =~= node@.skip(i + 1));
        if node[i].state_root_hash == root {
            return Some(&node[i].bids);
        }
        i += 1;
    }
    None
}

/// Why no set of switch blocks can be collected.
#[derive(Clone, Copy, Debug, PartialEq, Eq, Structural)]
pub enum CollectError {
    /// There is no node to read from.
    NoNodes,
    /// A node lacks the switch block of an era.
    MissingHeader {
        /// The era in question.
        era_number: u64,
    },
    /// The header that was read for an era belongs to another one.
    WrongEra {
        /// The era in question.
        era_number: u64,
    },
    /// Two nodes have different switch blocks for an era.
    Disagreement {
        /// The era in question.
        era_number: u64,
    },
}

/// The switch block headers that one node has stored: one entry for each era.
pub type StoredHeaders = Vec<Option<BlockHeader>>;

/// The header that a node has stored for an era.
pub open spec fn stored(node: StoredHeaders, era_number: u64) -> Option<BlockHeader> {
    if era_number < node@.len() {
        node@[era_number as int]
    } else {
        None
    }
}

/// All headers that the nodes have stored are well-formed.
pub open spec fn stored_wf(nodes: Seq<StoredHeaders>) -> bool {
    forall|node: int, era: int|
        #![trigger nodes[node]@[era]]
        0 <= node < nodes.len() && 0 <= era < nodes[node]@.len() ==> (nodes[node]@[era] matches Some(
            header,
        ) ==> header.wf())
}

/// What is wrong with the header of `era_number` in the first `n` nodes, looked at in order.
pub open spec fn era_fault(nodes: Seq<StoredHeaders>, era_number: u64, n: nat) -> Option<
    CollectError,
>
    decreases n,
{
    if n == 0 {
        None
    } else {
        match era_fault(nodes, era_number, (n - 1) as nat) {
            Some(e) => Some(e),
            None => match stored(nodes[n - 1], era_number) {
                None => Some(CollectError::MissingHeader { era_number }),
                Some(header) => if n == 1 {
                    if header.era_id.number != era_number {
                        Some(CollectError::WrongEra { era_number })
                    } else {
                        None
                    }
                } else if !stored(nodes[0], era_number)->0.same(&header) {
                    Some(CollectError::Disagreement { era_number })
                } else {
                    None
                },
            },
        }
    }
}

/// What is wrong with the headers of the first `era_count` eras, looked at in order.
pub open spec fn collect_fault(nodes: Seq<StoredHeaders>, era_count: u64) -> Option<CollectError>
    decreases era_count,
{
    if era_count == 0 {
        None
    } else {
        match collect_fault(nodes, (era_count - 1) as u64) {
            Some(e) => Some(e),
            None => if nodes.len() == 0 {
                Some(CollectError::NoNodes)
            } else {
                era_fault(nodes, (era_count - 1) as u64, nodes.len())
            },
        }
    }
}

/// Once the first nodes show a fault, looking at more of them finds the same one.
proof fn lemma_era_fault_stays(nodes: Seq<StoredHeaders>, era_number: u64, n: nat, m: nat)
    requires
        n <= m,
        era_fault(nodes, era_number, n) is Some,
    ensures
        era_fault(nodes, era_number, m) == era_fault(nodes, era_number, n),
    decreases m,
{
    if n < m {
        lemma_era_fault_stays(nodes, era_number, n, (m - 1) as nat);
    }
}

/// Once the first eras show a fault, looking at more of them finds the same one.
proof fn lemma_collect_fault_stays(nodes: Seq<StoredHeaders>, n: u64, m: u64)
    requires
        n <= m,
        collect_fault(nodes, n) is Some,
    ensures
        collect_fault(nodes, m) == collect_fault(nodes, n),
    decreases m,
{
    if n < m {
        lemma_collect_fault_stays(nodes, n, (m - 1) as u64);
    }
}

/// Where no fault is found, every node has the header of every era, it belongs to that era, and it
/// is the one that the first node has.
pub proof fn lemma_collected_agree(
    nodes: Seq<StoredHeaders>,
    era_count: u64,
    era_number: u64,
    node: int,
)
    requires
        collect_fault(nodes, era_count) is None,
        era_number < era_count,
        0 <= node < nodes.len(),
    ensures
        stored(nodes[node], era_number) is Some,
        stored(nodes[node], era_number)->0.era_id.number == era_number,
        stored(nodes[0], era_number)->0.same(&stored(nodes[node], era_number)->0),
{
    if collect_fault(nodes, (era_number + 1) as u64) is Some {
        lemma_collect_fault_stays(nodes, (era_number + 1) as u64, era_count);
    }
    assert(era_fault(nodes, era_number, nodes.len()) is None);
    if era_fault(nodes, era_number, (node + 1) as nat) is Some {
        lemma_era_fault_stays(nodes, era_number, (node + 1) as nat, nodes.len());
    }
    if era_fault(nodes, era_number, 1) is Some {
        lemma_era_fault_stays(nodes, era_number, 1, nodes.len());
    }
    reveal_with_fuel(era_fault, 2);
}

fn read_stored(node: &StoredHeaders, era_number: u64) -> (r: Option<&BlockHeader>)
    ensures
        r == (match stored(*node, era_number) {
            Some(h) => Some(&h),
            None => None,
        }),
{
    if era_number < node.len() as u64 {
        node[era_number as usize].as_ref()
    } else {
        None
    }
}

/// Reads the header of one era in every node and gives back the first node's.
fn collect_era(nodes: &Vec<StoredHeaders>, era_number: u64) -> (r: Result<
    BlockHeader,
    CollectError,
>)
    requires
        nodes@.len() > 0,
    ensures
        match r {
            Ok(header) => {
                &&& era_fault(nodes@, era_number, nodes@.len()) is None
                &&& header.same(&stored(nodes@[0], era_number)->0)
            },
            Err(e) => era_fault(nodes@, era_number, nodes@.len()) == Some(e),
        },
{
    let first: &BlockHeader = match read_stored(&nodes[0], era_number) {
        Some(header) => header,
        None => {
            proof {
                reveal_with_fuel(era_fault, 2);
                lemma_era_fault_stays(nodes@, era_number, 1, nodes@.len());
            }
            return Err(CollectError::MissingHeader { era_number });
        },
    };
    proof {
        reveal_with_fuel(era_fault, 2);
    }
    if first.era_id.number != era_number {
        proof {
            lemma_era_fault_stays(nodes@, era_number, 1, nodes@.len());
        }
        return Err(CollectError::WrongEra { era_number });
    }
    let mut i: usize = 1;
    while i < nodes.len()
        invariant
            1 <= i <= nodes@.len(),
            era_fault(nodes@, era_number, i as nat) is None,
            stored(nodes@[0], era_number) == Some(*first),
        decreases nodes@.len() - i,
    {
        let other: &BlockHeader = match read_stored(&nodes[i], era_number) {
            Some(header) => header,
            None => {
                proof {
                    lemma_era_fault_stays(nodes@, era_number, (i + 1) as nat, nodes@.len());
                }
                return Err(CollectError::MissingHeader { era_number });
            },
        };
        if !first.equals(other) {
            proof {
                lemma_era_fault_stays(nodes@, era_number, (i + 1) as nat, nodes@.len());
            }
            return Err(CollectError::Disagreement { era_number });
        }
        i += 1;
    }
    Ok(first.duplicate())
}

/// A set of consecutive switch blocks.
#[derive(Debug)]
pub struct SwitchBlocks {
    /// The header of the switch block of each era, from era 0 on.
    pub headers: Vec<BlockHeader>,
}

impl SwitchBlocks {
    /// All headers are well-formed.
    pub open spec fn wf(&self) -> bool {
        forall|i: int| 0 <= i < self.headers@.len() ==> (#[trigger] self.headers@[i]).wf()
    }

    /// Whether the set has the switch block of the era, and the block says how the era ended.
    pub open spec fn ends(&self, era_number: u64) -> bool {
        &&& era_number < self.headers@.len()
        &&& self.headers@[era_number as int].era_end is Some
    }

    /// Collects the switch blocks of the first `era_count` eras, which must be the same in all
    /// nodes.
    pub fn collect(nodes: &Vec<StoredHeaders>, era_count: u64) -> (r: Result<
        SwitchBlocks,
        CollectError,
    >)
        ensures
            match r {
                Ok(blocks) => {
                    &&& collect_fault(nodes@, era_count) is None
                    &&& blocks.headers@.len() == era_count
                    &&& forall|i: int|
                        0 <= i < era_count ==> (#[trigger] blocks.headers@[i]).same(
                            &stored(nodes@[0], i as u64)->0,
                        )
                    &&& stored_wf(nodes@) ==> blocks.wf()
                    &&& forall|node: int, era: int|
                        #![trigger nodes@[node]@[era]]
                        0 <= node < nodes@.len() && 0 <= era < era_count ==> {
                            let (header, here) = (blocks.headers@[era], nodes@[node]@[era]);
                            &&& era < nodes@[node]@.len()
                            &&& here is Some
                            &&& header.era_id.number == era
                            &&& header.hash == here->0.hash
                            &&& header.era_id == here->0.era_id
                            &&& header.height == here->0.height
                            &&& header.state_root_hash == here->0.state_root_hash
                            &&& header.genesis == here->0.genesis
                            &&& header.era_end is Some <==> here->0.era_end is Some
                            &&& header.era_end is Some ==> {
                                let (a, b) = (header.era_end->0, here->0.era_end->0);
                                &&& a.era_report.equivocators@ == b.era_report.equivocators@
                                &&& a.era_report.inactive_validators@
                                    == b.era_report.inactive_validators@
                                &&& a.next_era_validator_weights.entries@
                                    == b.next_era_validator_weights.entries@
                                &&& a.rewards@ == b.rewards@
                            }
                        }
                },
                Err(e) => collect_fault(nodes@, era_count) == Some(e),
            },
    {
        let mut headers: Vec<BlockHeader> = Vec::new();
        let mut era_number: u64 = 0;
        while era_number < era_count
            invariant
                era_number <= era_count,
                headers@.len() == era_number,
                collect_fault(nodes@, era_number) is None,
                forall|i: int|
                    0 <= i < era_number ==> (#[trigger] headers@[i]).same(
                        &stored(nodes@[0], i as u64)->0,
                    ),
            decreases era_count - era_number,
        {
            if nodes.len() == 0 {
                proof {
                    lemma_collect_fault_stays(nodes@, (era_number + 1) as u64, era_count);
                }
                return Err(CollectError::NoNodes);
            }
            match collect_era(nodes, era_number) {
                Ok(header) => {
                    headers.push(header);
                },
                Err(e) => {
                    proof {
                        lemma_collect_fault_stays(nodes@, (era_number + 1) as u64, era_count);
                    }
                    return Err(e);
                },
            }
            era_number += 1;
        }
        let blocks: SwitchBlocks = SwitchBlocks { headers };
        proof {
            assert forall|node: int, era: int|
                #![trigger nodes@[node]@[era]]
                0 <= node < nodes@.len() && 0 <= era < era_count implies {
                let here = nodes@[node]@[era];
                &&& era < nodes@[node]@.len()
                &&& here is Some
                &&& blocks.headers@[era].same(&here->0)
                &&& blocks.headers@[era].era_id.number == era
            } by {
                lemma_collected_agree(nodes@, era_count, era as u64, node);
                assert(blocks.headers@[era].same(&stored(nodes@[0], era as u64)->0));
            }
            if stored_wf(nodes@) {
                assert forall|i: int| 0 <= i < blocks.headers@.len() implies (
                #[trigger] blocks.headers@[i]).wf() by {
                    lemma_collected_agree(nodes@, era_count, i as u64, 0);
                    assert(nodes@[0]@[i] is Some);
                }
            }
        }
        Ok(blocks)
    }

    fn header(&self, era_number: u64) -> (r: &BlockHeader)
        requires
            era_number < self.headers@.len(),
        ensures
            *r == self.headers@[era_number as int],
    {
        assert(self.headers.len() == self.headers@.len());
        &self.headers[era_number as usize]
    }

    fn era_end(&self, era_number: u64) -> (r: &EraEnd)
        requires
            self.ends(era_number),
        ensures
            *r == self.headers@[era_number as int].era_end->0,
    {
        self.header(era_number).era_end.as_ref().unwrap()
    }

    /// The equivocators in the given era.
    pub fn equivocators(&self, era_number: u64) -> (r: &[PublicKey])
        requires
            self.ends(era_number),
        ensures
            r@ == self.headers@[era_number as int].era_end->0.era_report.equivocators@,
    {
        self.era_end(era_number).era_report.equivocators.as_slice()
    }

    /// The inactive validators in the given era.
    pub fn inactive_validators(&self, era_number: u64) -> (r: &[PublicKey])
        requires
            self.ends(era_number),
        ensures
            r@ == self.headers@[era_number as int].era_end->0.era_report.inactive_validators@,
    {
        self.era_end(era_number).era_report.inactive_validators.as_slice()
    }

    /// The validators of the era after the given one.
    pub fn next_era_validators(&self, era_number: u64) -> (r: &ValidatorWeights)
        requires
            self.ends(era_number),
        ensures
            *r == self.headers@[era_number as int].era_end->0.next_era_validator_weights,
    {
        &self.era_end(era_number).next_era_validator_weights
    }

    /// The state root at which a node is asked for the bids at the end of the given era.
    pub fn bids_request(&self, era_number: u64) -> (r: Digest)
        requires
            era_number < self.headers@.len(),
        ensures
            r == self.headers@[era_number as int].state_root_hash,
    {
        self.header(era_number).state_root_hash
    }

    /// The bids in the auction at the end of the given era, as the first node that has them gives
    /// them.
    pub fn bids<'a>(&self, nodes: &'a Vec<NodeBids>, era_number: u64) -> (r: &'a Bids)
        requires
            era_number < self.headers@.len(),
            exists|i: int|
                0 <= i < nodes@.len() && answer(
                    #[trigger] nodes@[i]@,
                    self.headers@[era_number as int].state_root_hash,
                ) is Some,
        ensures
            ({
                let root = self.headers@[era_number as int].state_root_hash;
                exists|i: int|
                    {
                        &&& 0 <= i < nodes@.len()
                        &&& answer(#[trigger] nodes@[i]@, root) == Some(*r)
                        &&& forall|j: int| 0 <= j < i ==> answer(#[trigger] nodes@[j]@, root) is None
                    }
            }),
            bids_wf(nodes@) ==> keys_increase(r@),
    {
        let root: Digest = self.bids_request(era_number);
        let ghost k = choose|k: int|
            0 <= k < nodes@.len() && answer(#[trigger] nodes@[k]@, root) is Some;
        let mut i: usize = 0;
        loop
            invariant
                i <= k < nodes@.len(),
                nodes.len() == nodes@.len(),
                answer(nodes@[k]@, root) is Some,
                root == self.headers@[era_number as int].state_root_hash,
                forall|j: int| 0 <= j < i ==> answer(#[trigger] nodes@[j]@, root) is None,
            decreases nodes@.len() - i,
        {
            if let Some(bids) = find_answer(&nodes[i], root) {
                assert(answer(nodes@[i as int]@, root) == Some(*bids));
                proof {
                    if bids_wf(nodes@) {
                        lemma_answer_in_order(nodes@[i as int]@, root);
                    }
                }
                return bids;
            }
            i += 1;
        }
    }
}

/// Two headers are taken for equal exactly where they agree in everything: the hash, the era, the
/// height, the state root, whether they are of the genesis block, and, where they end an era, the
/// equivocators, the inactive validators, the next weights and the rewards.
pub proof fn lemma_same_in_everything(a: BlockHeader, b: BlockHeader)
    ensures
        a.same(&b) <==> {
            &&& a.hash == b.hash
            &&& a.era_id == b.era_id
            &&& a.height == b.height
            &&& a.state_root_hash == b.state_root_hash
            &&& a.genesis == b.genesis
            &&& a.era_end is Some <==> b.era_end is Some
            &&& a.era_end is Some ==> {
                let (x, y) = (a.era_end->0, b.era_end->0);
                &&& x.era_report.equivocators@ == y.era_report.equivocators@
                &&& x.era_report.inactive_validators@ == y.era_report.inactive_validators@
                &&& x.next_era_validator_weights.entries@ == y.next_era_validator_weights.entries@
                &&& x.rewards@ == y.rewards@
            }
        },
{
}

/// Switch blocks can be collected wherever there is a node and every node has, for every era, a header
/// of that era that is the same as the first node's.
pub proof fn lemma_agreeing_nodes_collected(nodes: Seq<StoredHeaders>, era_count: u64)
    requires
        era_count > 0 ==> nodes.len() > 0,
        forall|node: int, era: int|
            #![trigger nodes[node]@[era]]
            0 <= node < nodes.len() && 0 <= era < era_count ==> {
                &&& era < nodes[node]@.len()
                &&& nodes[node]@[era] is Some
                &&& nodes[node]@[era]->0.era_id.number == era
                &&& nodes[0]@[era]->0.same(&nodes[node]@[era]->0)
            },
    ensures
        collect_fault(nodes, era_count) is None,
    decreases era_count,
{
    if era_count > 0 {
        let era = (era_count - 1) as u64;
        lemma_agreeing_nodes_collected(nodes, era);
        lemma_agreeing_era(nodes, era, nodes.len());
    }
}

proof fn lemma_agreeing_era(nodes: Seq<StoredHeaders>, era_number: u64, n: nat)
    requires
        n <= nodes.len(),
        forall|node: int|
            #![trigger nodes[node]]
            0 <= node < nodes.len() ==> {
                &&& era_number < nodes[node]@.len()
                &&& nodes[node]@[era_number as int] is Some
                &&& nodes[node]@[era_number as int]->0.era_id.number == era_number
                &&& nodes[0]@[era_number as int]->0.same(&nodes[node]@[era_number as int]->0)
            },
    ensures
        era_fault(nodes, era_number, n) is None,
    decreases n,
{
    if n > 0 {
        lemma_agreeing_era(nodes, era_number, (n - 1) as nat);
        assert(nodes[n - 1]@[era_number as int] is Some);
    }
}

/// What an error names is so: a node lacks the header, the first node's header is of another era, or
/// two nodes' headers are not the same; and all earlier eras are without a fault.
pub proof fn lemma_collect_errors(nodes: Seq<StoredHeaders>, era_count: u64)
    ensures
        collect_fault(nodes, era_count) matches Some(error) ==> match error {
            CollectError::NoNodes => nodes.len() == 0 && era_count > 0,
            CollectError::MissingHeader { era_number } => {
                &&& era_number < era_count
                &&& collect_fault(nodes, era_number) is None
                &&& exists|node: int|
                    0 <= node < nodes.len() && (era_number >= (#[trigger] nodes[node])@.len()
                        || nodes[node]@[era_number as int] is None)
            },
            CollectError::WrongEra { era_number } => {
                &&& era_number < era_count
                &&& collect_fault(nodes, era_number) is None
                &&& nodes.len() > 0 && era_number < nodes[0]@.len()
                &&& nodes[0]@[era_number as int] is Some
                &&& nodes[0]@[era_number as int]->0.era_id.number != era_number
            },
            CollectError::Disagreement { era_number } => {
                &&& era_number < era_count
                &&& collect_fault(nodes, era_number) is None
                &&& exists|node: int|
                    {
                        &&& 0 < node < nodes.len()
                        &&& era_number < (#[trigger] nodes[node])@.len()
                        &&& nodes[0]@[era_number as int] is Some
                        &&& nodes[node]@[era_number as int] is Some
                        &&& !nodes[0]@[era_number as int]->0.same(
                            &nodes[node]@[era_number as int]->0,
                        )
                    }
            },
        },
    decreases era_count,
{
    if era_count > 0 {
        let era = (era_count - 1) as u64;
        lemma_collect_errors(nodes, era);
        if collect_fault(nodes, era) is None && nodes.len() > 0 {
            lemma_era_errors(nodes, era, nodes.len());
        }
    }
}

proof fn lemma_era_errors(nodes: Seq<StoredHeaders>, era_number: u64, n: nat)
    requires
        n <= nodes.len(),
    ensures
        n > 0 && era_fault(nodes, era_number, n) is None ==> era_number < nodes[0]@.len()
            && nodes[0]@[era_number as int] is Some,
        era_fault(nodes, era_number, n) matches Some(error) ==> match error {
            CollectError::NoNodes => false,
            CollectError::MissingHeader { era_number: e } => e == era_number && exists|node: int|
                0 <= node < nodes.len() && (era_number >= (#[trigger] nodes[node])@.len()
                    || nodes[node]@[era_number as int] is None),
            CollectError::WrongEra { era_number: e } => {
                &&& e == era_number
                &&& nodes.len() > 0 && era_number < nodes[0]@.len()
                &&& nodes[0]@[era_number as int] is Some
                &&& nodes[0]@[era_number as int]->0.era_id.number != era_number
            },
            CollectError::Disagreement { era_number: e } => e == era_number && exists|node: int|
                {
                    &&& 0 < node < nodes.len()
                    &&& era_number < (#[trigger] nodes[node])@.len()
                    &&& nodes[0]@[era_number as int] is Some
                    &&& nodes[node]@[era_number as int] is Some
                    &&& !nodes[0]@[era_number as int]->0.same(&nodes[node]@[era_number as int]->0)
                },
        },
    decreases n,
{
    if n > 0 {
        lemma_era_errors(nodes, era_number, (n - 1) as nat);
        let last = nodes[n - 1];
        assert(nodes[n - 1] == last);
    }
}

/// A node that is asked for the bids at a state answers with the first entry that it has for it, and
/// answers nothing only where it has none.
pub proof fn lemma_answers(node: Seq<StateBids>, root: Digest)
    ensures
        match answer(node, root) {
            Some(bids) => exists|i: int|
                {
                    &&& 0 <= i < node.len()
                    &&& (#[trigger] node[i]).state_root_hash == root
                    &&& node[i].bids == bids
                    &&& forall|j: int| 0 <= j < i ==> (#[trigger] node[j]).state_root_hash != root
                },
            None => forall|i: int|
                0 <= i < node.len() ==> (#[trigger] node[i]).state_root_hash != root,
        },
    decreases node.len(),
{
    if node.len() > 0 && node[0].state_root_hash != root {
        let rest = node.skip(1);
        lemma_answers(rest, root);
        match answer(rest, root) {
            Some(bids) => {
                let i = choose|i: int|
                    {
                        &&& 0 <= i < rest.len()
                        &&& (#[trigger] rest[i]).state_root_hash == root
                        &&& rest[i].bids == bids
                        &&& forall|j: int|
                            0 <= j < i ==> (#[trigger] rest[j]).state_root_hash != root
                    };
                assert(node[i + 1] == rest[i]);
                assert forall|j: int| 0 <= j < i + 1 implies (#[trigger] node[j]).state_root_hash
                    != root by {
                    if j > 0 {
                        assert(node[j] == rest[j - 1]);
                    }
                }
            },
            None => {
                assert forall|i: int| 0 <= i < node.len() implies (
                #[trigger] node[i]).state_root_hash != root by {
                    if i > 0 {
                        assert(node[i] == rest[i - 1]);
                    }
                }
            },
        }
    }
}

} // verus!
