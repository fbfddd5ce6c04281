//! The rules by which a blockchain node and networks of such nodes are set up and checked.
//!
//! * Recomputing rewards: [`rational`], [`rewards`], [`ledger`] and [`audit`] recompute what a
//!   network pays its validators at the end of each era, and hold it against what the chain says.
//!   [`reward_laws`] and [`payout_laws`] say who is paid for what, and who has received what.
//! * Switch blocks and bids: [`switch_blocks`], [`outcomes`] and [`approvals`] read off the nodes of
//!   a network what they have stored, and say what is wrong with it.
//! * Networks of nodes: [`chainspec`], [`test_chain`], [`node_config`], [`settings`], [`nodes`],
//!   [`events`] and [`shutdown_run`] set networks up, wait for them, and filter their events.
//! * Interfaces: [`announcements`], [`round_seigniorage`], [`supply_query`] and [`vm`] hold the
//!   messages, requests and errors of a node's components.
//! * [`primitives`], [`u512`], [`ordered`] and [`text`] are what the others are built on.

pub mod announcements;
pub mod approvals;
pub mod audit;
pub mod chainspec;
pub mod events;
pub mod ledger;
pub mod node_config;
pub mod nodes;
pub mod ordered;
pub mod outcomes;
pub mod payout_laws;
pub mod primitives;
pub mod rational;
pub mod reward_laws;
pub mod rewards;
pub mod round_seigniorage;
pub mod settings;
pub mod shutdown_run;
pub mod supply_query;
pub mod switch_blocks;
pub mod test_chain;
pub mod text;
pub mod u512;
pub mod vm;
