//! Events of a node, and filters that delay or replace some of them.

use crate::primitives::{Digest, EraId, PublicKey, TimeDiff, Timestamp};
use crate::rewards::SignaturesPacked;
use vstd::prelude::*;

verus! {

/// A vertex of the Highway protocol's graph.
#[derive(Clone, Copy, Debug, PartialEq, Eq, Structural)]
pub enum HighwayVertex {
    /// A unit.
    Unit,
    /// Evidence of an equivocation.
    Evidence,
    /// Endorsements of a unit.
    Endorsements,
    /// A sign of life.
    Ping,
}

/// A message of the Highway protocol.
#[derive(Clone, Copy, Debug, PartialEq, Eq, Structural)]
pub enum HighwayMessage {
    /// A new vertex.
    NewVertex(HighwayVertex),
    /// Any other message.
    Other,
}

/// A consensus message from a peer.
#[derive(Clone, Copy, Debug, PartialEq, Eq, Structural)]
pub enum ConsensusMessage {
    /// A message of the consensus protocol.
    Protocol {
        /// What the payload decodes to, where it decodes to a message of the Highway protocol.
        payload: Option<HighwayMessage>,
    },
    /// Any other message.
    Other,
}

/// A message to a peer.
#[derive(Clone, Copy, Debug, PartialEq, Eq, Structural)]
pub enum Message {
    /// A consensus message.
    Consensus,
    /// Any other message.
    Other,
}

/// A request to the network component.
#[derive(Clone, Copy, Debug, PartialEq, Eq, Structural)]
pub enum NetworkRequest {
    /// To send a message to a peer.
    SendMessage {
        /// The message.
        payload: Message,
    },
    /// To send a message to all validators.
    ValidatorBroadcast {
        /// The message.
        payload: Message,
    },
    /// To gossip a message.
    Gossip {
        /// The message.
        payload: Message,
    },
}

/// A block that consensus has been reached on.
#[derive(Clone, Copy, Debug, PartialEq, Eq, Structural)]
pub struct FinalizedBlock {
    /// The era of the block.
    pub era_id: EraId,
    /// Whether the block reports on the end of its era.
    pub has_era_report: bool,
}

/// A request to the contract runtime.
#[derive(Clone, Copy, Debug, PartialEq, Eq, Structural)]
pub enum ContractRuntimeRequest {
    /// To execute a block.
    EnqueueBlockForExecution {
        /// The block.
        finalized_block: FinalizedBlock,
    },
    /// Any other request.
    Other,
}

/// What a proposed block holds.
#[derive(Debug)]
pub struct BlockPayload {
    /// The hashes of the deploys.
    pub deploys: Vec<Digest>,
    /// The hashes of the transfers.
    pub transfers: Vec<Digest>,
    /// The validators accused of equivocating.
    pub accusations: Vec<PublicKey>,
    /// The finality signatures to be rewarded.
    pub rewarded_signatures: Vec<SignaturesPacked>,
    /// A random bit.
    pub random_bit: bool,
}

/// A block to be proposed, in a context of type `C`.
#[derive(Debug)]
pub struct NewBlockPayload<C> {
    /// The era in which to propose.
    pub era_id: EraId,
    /// What the block holds.
    pub block_payload: BlockPayload,
    /// The context in which to propose.
    pub block_context: C,
}

/// An event of a node, where blocks are proposed in contexts of type `C` and all other events are
/// of type `O`.
#[derive(Debug)]
pub enum MainEvent<C, O> {
    /// A consensus message came in.
    ConsensusMessageIncoming(ConsensusMessage),
    /// A request to the network component.
    NetworkRequest(NetworkRequest),
    /// A request to the contract runtime.
    ContractRuntimeRequest(ContractRuntimeRequest),
    /// A block is ready to be proposed.
    NewBlockPayload(NewBlockPayload<C>),
    /// Any other event.
    Other(O),
}

/// The event is an incoming ping of the Highway protocol.
pub open spec fn ping<C, O>(event: MainEvent<C, O>) -> bool {
    event matches MainEvent::ConsensusMessageIncoming(message) && message == (
    ConsensusMessage::Protocol {
        payload: Some(HighwayMessage::NewVertex(HighwayVertex::Ping)),
    })
}

/// Tells whether the event is an incoming ping of the Highway protocol.
pub fn is_ping<C, O>(event: &MainEvent<C, O>) -> (r: bool)
    ensures
        r == ping(*event),
{
    if let MainEvent::ConsensusMessageIncoming(message) = event {
        if let ConsensusMessage::Protocol { payload } = message {
            return matches!(
                payload,
                Some(HighwayMessage::NewVertex(HighwayVertex::Ping))
            );
        }
    }
    false
}

/// The event carries a consensus message, coming in or going out.
pub open spec fn consensus_traffic<C, O>(event: MainEvent<C, O>) -> bool {
    match event {
        MainEvent::ConsensusMessageIncoming(_) => true,
        MainEvent::NetworkRequest(request) => match request {
            NetworkRequest::SendMessage { payload } => payload == Message::Consensus,
            NetworkRequest::ValidatorBroadcast { payload } => payload == Message::Consensus,
            NetworkRequest::Gossip { payload } => payload == Message::Consensus,
        },
        _ => false,
    }
}

fn is_consensus_traffic<C, O>(event: &MainEvent<C, O>) -> (r: bool)
    ensures
        r == consensus_traffic(*event),
{
    match event {
        MainEvent::ConsensusMessageIncoming(_) => true,
        MainEvent::NetworkRequest(request) => match request {
            NetworkRequest::SendMessage { payload } => *payload == Message::Consensus,
            NetworkRequest::ValidatorBroadcast { payload } => *payload == Message::Consensus,
            NetworkRequest::Gossip { payload } => *payload == Message::Consensus,
        },
        _ => false,
    }
}

/// What a filter does with an event.
#[derive(Clone, Copy, Debug, PartialEq, Eq, Structural)]
pub enum FilterAction {
    /// The event is handled after a while.
    Delay(TimeDiff),
    /// The event is handled now.
    Pass,
}

/// How many rounds an incoming ping is delayed, so that a node does not detect that another one
/// runs with its key.
pub const PING_DELAY_ROUNDS: u64 = 30;

/// For how many rounds after the first consensus message a node is held back.
pub const HELD_BACK_ROUNDS: u64 = 3;

/// Delays incoming pings significantly.
#[derive(Clone, Copy, Debug, PartialEq, Eq, Structural)]
pub struct PingFilter {
    /// The least length of a round.
    pub min_round_len: TimeDiff,
}

impl PingFilter {
    /// The delay of a ping can be expressed.
    pub open spec fn wf(&self) -> bool {
        self.min_round_len.millis * PING_DELAY_ROUNDS <= u64::MAX
    }

    /// What the filter does with an event.
    pub open spec fn action<C, O>(&self, event: MainEvent<C, O>) -> FilterAction {
        if ping(event) {
            FilterAction::Delay(
                TimeDiff { millis: (self.min_round_len.millis * PING_DELAY_ROUNDS) as u64 },
            )
        } else {
            FilterAction::Pass
        }
    }

    /// Decides what to do with an event.
    pub fn decide<C, O>(&self, event: &MainEvent<C, O>) -> (r: FilterAction)
        requires
            self.wf(),
        ensures
            r == self.action(*event),
    {
        if is_ping(event) {
            FilterAction::Delay(self.min_round_len.times(PING_DELAY_ROUNDS))
        } else {
            FilterAction::Pass
        }
    }
}

/// Delays all consensus messages to and from a node until some rounds after the first one, and
/// incoming pings significantly.
#[derive(Clone, Copy, Debug, PartialEq, Eq, Structural)]
pub struct HoldBackFilter {
    /// The least length of a round.
    pub min_round_len: TimeDiff,
    /// When the first consensus message was seen.
    pub first_message_time: Option<Timestamp>,
}

impl HoldBackFilter {
    /// The delays can be expressed.
    pub open spec fn wf(&self) -> bool {
        self.min_round_len.millis * PING_DELAY_ROUNDS <= u64::MAX
    }

    /// The filter after it has looked at an event.
    pub open spec fn next<C, O>(&self, event: MainEvent<C, O>, now: Timestamp) -> HoldBackFilter {
        if !ping(event) && consensus_traffic(event) && self.first_message_time is None {
            HoldBackFilter { first_message_time: Some(now), ..*self }
        } else {
            *self
        }
    }

    /// What the filter does with an event.
    pub open spec fn action<C, O>(&self, event: MainEvent<C, O>, now: Timestamp) -> FilterAction {
        if ping(event) {
            FilterAction::Delay(
                TimeDiff { millis: (self.min_round_len.millis * PING_DELAY_ROUNDS) as u64 },
            )
        } else if consensus_traffic(event) && now.millis < self.next(
            event,
            now,
        ).first_message_time->0.millis + self.min_round_len.millis * HELD_BACK_ROUNDS {
            FilterAction::Delay(self.min_round_len)
        } else {
            FilterAction::Pass
        }
    }

    /// A filter that has seen no message yet.
    pub fn new(min_round_len: TimeDiff) -> (r: HoldBackFilter)
        ensures
            r == (HoldBackFilter { min_round_len, first_message_time: None }),
    {
        HoldBackFilter { min_round_len, first_message_time: None }
    }

    /// Decides what to do with an event.
    pub fn decide<C, O>(&mut self, event: &MainEvent<C, O>, now: Timestamp) -> (r: FilterAction)
        requires
            old(self).wf(),
        ensures
            r == old(self).action(*event, now),
            *final(self) == old(self).next(*event, now),
            final(self).wf(),
    {
        if is_ping(event) {
            return FilterAction::Delay(self.min_round_len.times(PING_DELAY_ROUNDS));
        }
        if !is_consensus_traffic(event) {
            return FilterAction::Pass;
        }
        let first: Timestamp = match self.first_message_time {
            Some(first) => first,
            None => {
                self.first_message_time = Some(now);
                now
            },
        };
        let held_back: u128 = first.millis as u128 + self.min_round_len.millis as u128
            * HELD_BACK_ROUNDS as u128;
        if (now.millis as u128) < held_back {
            return FilterAction::Delay(self.min_round_len);
        }
        FilterAction::Pass
    }
}

/// The time of the first message is never forgotten or changed.
pub proof fn lemma_first_message_time_stays<C, O>(
    filter: HoldBackFilter,
    event: MainEvent<C, O>,
    now: Timestamp,
)
    ensures
        filter.next(event, now).min_round_len == filter.min_round_len,
        filter.first_message_time is Some ==> filter.next(event, now) == filter,
{
}

/// Once the node is no longer held back it is not held back again: where an event other than a ping
/// passes at some time after the first message, it passes at any later time too.
pub proof fn lemma_released_for_good<C, O>(
    filter: HoldBackFilter,
    event: MainEvent<C, O>,
    other: MainEvent<C, O>,
    now: Timestamp,
    later: Timestamp,
)
    requires
        filter.first_message_time is Some,
        consensus_traffic(event),
        !ping(event),
        !ping(other),
        filter.action(event, now) == FilterAction::Pass,
        now.millis <= later.millis,
    ensures
        filter.action(other, later) == FilterAction::Pass,
{
}

/// The first consensus message is held back, unless rounds take no time.
pub proof fn lemma_first_message_held_back<C, O>(
    filter: HoldBackFilter,
    event: MainEvent<C, O>,
    now: Timestamp,
)
    requires
        filter.first_message_time is None,
        filter.min_round_len.millis > 0,
        consensus_traffic(event),
        !ping(event),
    ensures
        filter.action(event, now) == FilterAction::Delay(filter.min_round_len),
        filter.next(event, now).first_message_time == Some(now),
{
}

/// How long the execution of a switch block is delayed.
pub const EXECUTION_DELAY_MILLIS: u64 = 10_000;

/// Delays the execution of the switch block of an era, once.
#[derive(Clone, Copy, Debug, PartialEq, Eq, Structural)]
pub struct ExecutionDelayFilter {
    /// The era.
    pub era_id: EraId,
    /// Whether the execution has been delayed.
    pub exec_request_received: bool,
}

impl ExecutionDelayFilter {
    /// The event asks for the execution of the era's switch block.
    pub open spec fn concerns<C, O>(&self, event: MainEvent<C, O>) -> bool {
        event matches MainEvent::ContractRuntimeRequest(request) && request
            == (ContractRuntimeRequest::EnqueueBlockForExecution {
            finalized_block: FinalizedBlock { era_id: self.era_id, has_era_report: true },
        })
    }

    /// What the filter does with an event.
    pub open spec fn action<C, O>(&self, event: MainEvent<C, O>) -> FilterAction {
        if self.concerns(event) && !self.exec_request_received {
            FilterAction::Delay(TimeDiff { millis: EXECUTION_DELAY_MILLIS })
        } else {
            FilterAction::Pass
        }
    }

    /// The filter after it has looked at an event.
    pub open spec fn next<C, O>(&self, event: MainEvent<C, O>) -> ExecutionDelayFilter {
        ExecutionDelayFilter {
            exec_request_received: self.exec_request_received || self.concerns(event),
            ..*self
        }
    }

    /// A filter that has delayed nothing yet.
    pub fn new(era_id: EraId) -> (r: ExecutionDelayFilter)
        ensures
            r == (ExecutionDelayFilter { era_id, exec_request_received: false }),
    {
        ExecutionDelayFilter { era_id, exec_request_received: false }
    }

    /// Decides what to do with an event.
    pub fn decide<C, O>(&mut self, event: &MainEvent<C, O>) -> (r: FilterAction)
        ensures
            r == old(self).action(*event),
            *final(self) == old(self).next(*event),
    {
        if let MainEvent::ContractRuntimeRequest(
            ContractRuntimeRequest::EnqueueBlockForExecution { finalized_block },
        ) = event {
            if finalized_block.has_era_report && finalized_block.era_id == self.era_id
                && !self.exec_request_received {
                self.exec_request_received = true;
                return FilterAction::Delay(TimeDiff::from_millis(EXECUTION_DELAY_MILLIS));
            }
        }
        FilterAction::Pass
    }
}

/// After an event has been delayed, no event is.
pub proof fn lemma_delayed_once<C, O>(
    filter: ExecutionDelayFilter,
    event: MainEvent<C, O>,
    later: MainEvent<C, O>,
)
    requires
        filter.action(event) != FilterAction::Pass,
    ensures
        filter.next(event).action(later) == FilterAction::Pass,
        filter.next(event).next(later) == filter.next(event),
{
}

/// Replaces a block that is about to be proposed by an empty one that accuses the given validators;
/// leaves all other events as they are.
pub fn accuse<C, O>(event: MainEvent<C, O>, accused: &Vec<PublicKey>) -> (r: MainEvent<C, O>)
    ensures
        match event {
            MainEvent::NewBlockPayload(proposal) => {
                &&& r is NewBlockPayload
                &&& r->NewBlockPayload_0.era_id == proposal.era_id
                &&& r->NewBlockPayload_0.block_context == proposal.block_context
                &&& ({
                    let payload = r->NewBlockPayload_0.block_payload;
                    &&& payload.deploys@ == Seq::<Digest>::empty()
                    &&& payload.transfers@ == Seq::<Digest>::empty()
                    &&& payload.accusations@ == accused@
                    &&& payload.rewarded_signatures@ == Seq::<SignaturesPacked>::empty()
                    &&& !payload.random_bit
                })
            },
            _ => r == event,
        },
{
    match event {
        MainEvent::NewBlockPayload(proposal) => {
            let mut accusations: Vec<PublicKey> = Vec::new();
            let mut i: usize = 0;
            while i < accused.len()
                invariant
                    i <= accused@.len(),
                    accusations@ == accused@.take(i as int),
                decreases accused@.len() - i,
            {
                accusations.push(accused[i]);
                i += 1;
                assert(accusations@ =~= accused@.take(i as int));
            }
            assert(accusations@ =~= accused@);
            MainEvent::NewBlockPayload(
                NewBlockPayload {
                    era_id: proposal.era_id,
                    block_payload: BlockPayload {
                        deploys: Vec::new(),
                        transfers: Vec::new(),
                        accusations,
                        rewarded_signatures: Vec::new(),
                        random_bit: false,
                    },
                    block_context: proposal.block_context,
                },
            )
        },
        other => other,
    }
}

/// All keys but one, in the order in which they come.
pub fn everyone_else(keys: &Vec<PublicKey>, but: PublicKey) -> (r: Vec<PublicKey>)
    ensures
        r@ == keys@.filter(|k: PublicKey| k != but),
{
    let ghost others = |k: PublicKey| k != but;
    let mut out: Vec<PublicKey> = Vec::new();
    let mut i: usize = 0;
    assert(keys@.take(0) =~= Seq::<PublicKey>::empty());
    proof {
        reveal(Seq::filter);
    }
    while i < keys.len()
        invariant
            i <= keys@.len(),
            others == (|k: PublicKey| k != but),
            out@ == keys@.take(i as int).filter(others),
        decreases keys@.len() - i,
    {
        proof {
            reveal(Seq::filter);
            assert(keys@.take(i + 1).drop_last() =~= keys@.take(i as int));
        }
        if keys[i] != but {
            out.push(keys[i]);
        }
        i += 1;
    }
    assert(keys@.take(i as int) =~= keys@);
    out
}

/// A ping is an incoming consensus message whose payload decodes to a new vertex that is a ping, and
/// nothing else.
pub proof fn lemma_pings<C, O>(event: MainEvent<C, O>)
    ensures
        ping(event) <==> event == MainEvent::<C, O>::ConsensusMessageIncoming(
            ConsensusMessage::Protocol {
                payload: Some(HighwayMessage::NewVertex(HighwayVertex::Ping)),
            },
        ),
{
}

/// Both filters delay a ping by thirty rounds, whenever it comes in, and the filter that holds a node
/// back does not take it for the first message.
pub proof fn lemma_pings_delayed<C, O>(
    ping_filter: PingFilter,
    filter: HoldBackFilter,
    event: MainEvent<C, O>,
    now: Timestamp,
)
    requires
        ping_filter.min_round_len == filter.min_round_len,
        filter.min_round_len.millis * 30 <= u64::MAX,
        event == MainEvent::<C, O>::ConsensusMessageIncoming(
            ConsensusMessage::Protocol {
                payload: Some(HighwayMessage::NewVertex(HighwayVertex::Ping)),
            },
        ),
    ensures
        ping_filter.wf() && filter.wf(),
        ({
            let delay = filter.action(event, now);
            &&& delay == ping_filter.action(event)
            &&& delay is Delay
            &&& delay->Delay_0.millis == filter.min_round_len.millis * 30
            &&& filter.next(event, now) == filter
        }),
{
}

/// The filter for pings lets all other events pass.
pub proof fn lemma_only_pings_delayed<C, O>(filter: PingFilter, event: MainEvent<C, O>)
    requires
        event != MainEvent::<C, O>::ConsensusMessageIncoming(
            ConsensusMessage::Protocol {
                payload: Some(HighwayMessage::NewVertex(HighwayVertex::Ping)),
            },
        ),
    ensures
        filter.action(event) == FilterAction::Pass,
{
}

/// Holding a node back concerns consensus messages only: any event that neither brings one in nor asks
/// the network to send, broadcast or gossip one passes at once and leaves the filter as it was.
pub proof fn lemma_other_events_pass<C, O>(
    filter: HoldBackFilter,
    event: MainEvent<C, O>,
    now: Timestamp,
)
    requires
        !(event is ConsensusMessageIncoming),
        event != MainEvent::<C, O>::NetworkRequest(
            NetworkRequest::SendMessage { payload: Message::Consensus },
        ),
        event != MainEvent::<C, O>::NetworkRequest(
            NetworkRequest::ValidatorBroadcast { payload: Message::Consensus },
        ),
        event != MainEvent::<C, O>::NetworkRequest(
            NetworkRequest::Gossip { payload: Message::Consensus },
        ),
    ensures
        filter.action(event, now) == FilterAction::Pass,
        filter.next(event, now) == filter,
{
    if let MainEvent::NetworkRequest(request) = event {
        match request {
            NetworkRequest::SendMessage { payload } => {
                assert(payload == Message::Other);
            },
            NetworkRequest::ValidatorBroadcast { payload } => {
                assert(payload == Message::Other);
            },
            NetworkRequest::Gossip { payload } => {
                assert(payload == Message::Other);
            },
        }
    }
}

/// A consensus message that comes in, and is no ping, or that is to be sent, broadcast or gossiped, is
/// delayed by one round until three rounds after the first such message, and passes from then on. The
/// first one sets the time.
pub proof fn lemma_consensus_messages_held_back<C, O>(
    filter: HoldBackFilter,
    event: MainEvent<C, O>,
    now: Timestamp,
)
    requires
        ({
            ||| event is ConsensusMessageIncoming && event
                != MainEvent::<C, O>::ConsensusMessageIncoming(
                ConsensusMessage::Protocol {
                    payload: Some(HighwayMessage::NewVertex(HighwayVertex::Ping)),
                },
            )
            ||| event == MainEvent::<C, O>::NetworkRequest(
                NetworkRequest::SendMessage { payload: Message::Consensus },
            )
            ||| event == MainEvent::<C, O>::NetworkRequest(
                NetworkRequest::ValidatorBroadcast { payload: Message::Consensus },
            )
            ||| event == MainEvent::<C, O>::NetworkRequest(
                NetworkRequest::Gossip { payload: Message::Consensus },
            )
        }),
    ensures
        filter.next(event, now).min_round_len == filter.min_round_len,
        filter.next(event, now).first_message_time == Some(
            match filter.first_message_time {
                Some(first) => first,
                None => now,
            },
        ),
        match filter.first_message_time {
            None => filter.action(event, now) == if filter.min_round_len.millis > 0 {
                FilterAction::Delay(filter.min_round_len)
            } else {
                FilterAction::Pass
            },
            Some(first) => filter.action(event, now) == if now.millis < first.millis + 3
                * filter.min_round_len.millis {
                FilterAction::Delay(filter.min_round_len)
            } else {
                FilterAction::Pass
            },
        },
{
}

/// The execution of a block is delayed, by ten seconds, exactly where the block reports on the end of
/// the filter's era and nothing was delayed before.
pub proof fn lemma_execution_delayed<C, O>(filter: ExecutionDelayFilter, event: MainEvent<C, O>)
    ensures
        ({
            let due = event == MainEvent::<C, O>::ContractRuntimeRequest(
                ContractRuntimeRequest::EnqueueBlockForExecution {
                    finalized_block: FinalizedBlock {
                        era_id: filter.era_id,
                        has_era_report: true,
                    },
                },
            );
            &&& due && !filter.exec_request_received ==> {
                &&& filter.action(event) == FilterAction::Delay(TimeDiff { millis: 10_000 })
                &&& filter.next(event).exec_request_received
            }
            &&& !due || filter.exec_request_received ==> {
                &&& filter.action(event) == FilterAction::Pass
                &&& filter.next(event) == filter
            }
            &&& filter.next(event).era_id == filter.era_id
        }),
{
}

} // verus!
