//! The approvals of a deploy that nodes have stored.

use crate::primitives::PublicKey;
use vstd::prelude::*;

verus! {

/// The approvals of a deploy, by their ranks in the order of approvals, in that order.
pub type Approvals = Vec<u64>;

/// Which version of a deploy a node is given.
#[derive(Clone, Copy, Debug, PartialEq, Eq, Structural)]
pub enum DeployVersion {
    /// The one that is proposed.
    Proposed,
    /// One with more approvals.
    MoreApprovals,
}

/// The version of the deploy that the node with the given key gets: the proposer gets the one to be
/// proposed.
pub fn version_for(public_key: PublicKey, proposer: PublicKey) -> (r: DeployVersion)
    ensures
        r == (if public_key == proposer {
            DeployVersion::Proposed
        } else {
            DeployVersion::MoreApprovals
        }),
{
    if public_key == proposer {
        DeployVersion::Proposed
    } else {
        DeployVersion::MoreApprovals
    }
}

/// What a node has stored of a deploy's approvals.
#[derive(Debug)]
pub struct StoredApprovals {
    /// The key of the node's validator.
    pub public_key: PublicKey,
    /// The approvals with which the deploy came, where the deploy is stored.
    pub original: Option<Approvals>,
    /// The approvals with which the deploy was finalized, where they are stored on their own.
    pub finalized: Option<Approvals>,
}

/// What is wrong with a node's approvals.
#[derive(Clone, Copy, Debug, PartialEq, Eq, Structural)]
pub enum ApprovalsFault {
    /// The version with more approvals has the same ones.
    SameApprovals,
    /// The node at this place has stored other finalized approvals than it should.
    WrongFinalized {
        /// The place of the node.
        node: usize,
    },
    /// The node at this place has stored other original approvals than it should.
    WrongOriginal {
        /// The place of the node.
        node: usize,
    },
}

/// The stored approvals are there, and are these.
pub open spec fn holds(stored: Option<Approvals>, approvals: Seq<u64>) -> bool {
    stored matches Some(list) && list@ == approvals
}

fn same_approvals(a: &Approvals, b: &Approvals) -> (r: bool)
    ensures
        r == (a@ == b@),
{
    if a.len() != b.len() {
        return false;
    }
    let mut i: usize = 0;
    while i < a.len()
        invariant
            i <= a@.len(),
            a@.len() == b@.len(),
            forall|j: int| 0 <= j < i ==> a@[j] == b@[j],
        decreases a@.len() - i,
    {
        if a[i] != b[i] {
            return false;
        }
        i += 1;
    }
    assert(a@ =~= b@);
    true
}

fn is_stored(stored: &Option<Approvals>, approvals: &Approvals) -> (r: bool)
    ensures
        r == holds(*stored, approvals@),
{
    match stored {
        Some(list) => same_approvals(list, approvals),
        None => false,
    }
}

/// What is wrong with the approvals of the node at a place.
///
/// The proposer's original approvals are the expected ones, and it stores no others. Any other node
/// has the approvals that it was given, and the expected ones as finalized.
pub open spec fn node_fault(
    stored: StoredApprovals,
    node: usize,
    proposer: PublicKey,
    expected: Seq<u64>,
    given: Seq<u64>,
) -> Option<ApprovalsFault> {
    if stored.public_key != proposer {
        if !holds(stored.finalized, expected) {
            Some(ApprovalsFault::WrongFinalized { node })
        } else if !holds(stored.original, given) {
            Some(ApprovalsFault::WrongOriginal { node })
        } else {
            None
        }
    } else if stored.finalized is Some {
        Some(ApprovalsFault::WrongFinalized { node })
    } else if !holds(stored.original, expected) {
        Some(ApprovalsFault::WrongOriginal { node })
    } else {
        None
    }
}

fn check_node(
    stored: &StoredApprovals,
    node: usize,
    proposer: PublicKey,
    expected: &Approvals,
    given: &Approvals,
) -> (r: Option<ApprovalsFault>)
    ensures
        r == node_fault(*stored, node, proposer, expected@, given@),
{
    if stored.public_key != proposer {
        if !is_stored(&stored.finalized, expected) {
            Some(ApprovalsFault::WrongFinalized { node })
        } else if !is_stored(&stored.original, given) {
            Some(ApprovalsFault::WrongOriginal { node })
        } else {
            None
        }
    } else if stored.finalized.is_some() {
        Some(ApprovalsFault::WrongFinalized { node })
    } else if !is_stored(&stored.original, expected) {
        Some(ApprovalsFault::WrongOriginal { node })
    } else {
        None
    }
}

/// Checks the approvals that all nodes have stored.
pub fn check_approvals(
    nodes: &Vec<StoredApprovals>,
    proposer: PublicKey,
    expected: &Approvals,
    given: &Approvals,
) -> (r: Result<(), ApprovalsFault>)
    ensures
        match r {
            Ok(_) => {
                &&& given@ != expected@
                &&& forall|i: int|
                    #![trigger nodes@[i]]
                    0 <= i < nodes@.len() && nodes@[i].public_key != proposer ==> {
                        &&& nodes@[i].finalized is Some && nodes@[i].finalized->0@ == expected@
                        &&& nodes@[i].original is Some && nodes@[i].original->0@ == given@
                    }
                &&& forall|i: int|
                    #![trigger nodes@[i]]
                    0 <= i < nodes@.len() && nodes@[i].public_key == proposer ==> {
                        &&& nodes@[i].finalized is None
                        &&& nodes@[i].original is Some && nodes@[i].original->0@ == expected@
                    }
                &&& forall|i: int|
                    0 <= i < nodes@.len() ==> node_fault(
                        #[trigger] nodes@[i],
                        i as usize,
                        proposer,
                        expected@,
                        given@,
                    ) is None
            },
            Err(ApprovalsFault::SameApprovals) => given@ == expected@,
            Err(fault) => {
                &&& given@ != expected@
                &&& exists|i: int|
                    {
                        &&& 0 <= i < nodes@.len()
                        &&& node_fault(#[trigger] nodes@[i], i as usize, proposer, expected@, given@)
                            == Some(fault)
                        &&& forall|j: int|
                            0 <= j < i ==> node_fault(
                                #[trigger] nodes@[j],
                                j as usize,
                                proposer,
                                expected@,
                                given@,
                            ) is None
                    }
            },
        },
{
    if same_approvals(given, expected) {
        return Err(ApprovalsFault::SameApprovals);
    }
    let mut i: usize = 0;
    while i < nodes.len()
        invariant
            i <= nodes@.len(),
            given@ != expected@,
            forall|j: int|
                0 <= j < i ==> node_fault(
                    #[trigger] nodes@[j],
                    j as usize,
                    proposer,
                    expected@,
                    given@,
                ) is None,
        decreases nodes@.len() - i,
    {
        if let Some(fault) = check_node(&nodes[i], i, proposer, expected, given) {
            assert(node_fault(nodes@[i as int], i, proposer, expected@, given@) == Some(fault));
            return Err(fault);
        }
        i += 1;
    }
    Ok(())
}

/// A node's approvals are right exactly where the proposer has the expected approvals as its original
/// ones and stores no others, and where any other node has the approvals that it was given as its
/// original ones and the expected ones as finalized.
pub proof fn lemma_right_approvals(
    stored: StoredApprovals,
    node: usize,
    proposer: PublicKey,
    expected: Seq<u64>,
    given: Seq<u64>,
)
    ensures
        node_fault(stored, node, proposer, expected, given) is None <==> {
            &&& stored.original is Some
            &&& stored.public_key == proposer ==> stored.finalized is None && stored.original->0@
                == expected
            &&& stored.public_key != proposer ==> stored.finalized is Some && stored.finalized->0@
                == expected && stored.original->0@ == given
        },
{
}

/// A fault that is found names the node, and the list that it names is not the one that the node
/// should store.
pub proof fn lemma_wrong_approvals(
    stored: StoredApprovals,
    node: usize,
    proposer: PublicKey,
    expected: Seq<u64>,
    given: Seq<u64>,
)
    ensures
        node_fault(stored, node, proposer, expected, given) matches Some(fault) ==> match fault {
            ApprovalsFault::SameApprovals => false,
            ApprovalsFault::WrongFinalized { node: n } => n == node && if stored.public_key
                == proposer {
                stored.finalized is Some
            } else {
                stored.finalized is None || stored.finalized->0@ != expected
            },
            ApprovalsFault::WrongOriginal { node: n } => n == node && (stored.original is None
                || stored.original->0@ != (if stored.public_key == proposer {
                expected
            } else {
                given
            })),
        },
{
}

} // verus!
