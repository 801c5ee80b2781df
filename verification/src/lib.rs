//! Propagation and agreement of parachain candidates.
//!
//! Authorities are split into groups by parachain, and each authority might come up with its
//! own candidate for its parachain. Within groups, authorities pass around their candidates
//! and produce statements of validity.
//!
//! Any candidate that receives majority approval by the authorities in a group may be subject
//! to inclusion, unless any authorities flag that candidate as invalid.
//!
//! Wrongly flagging as invalid should be strongly disincentivized, so that in the equilibrium
//! state it is not expected to happen. Likewise with the submission of invalid blocks.
//!
//! Groups themselves may be compromised by malicious authorities.
//!
//! This crate holds the decisions: who checks which parachain, what is signed, when a session
//! is started, when a block is proposed and what goes into it. Timers, the network, the
//! transaction pool and the chain itself are outside of it; where a decision waits for them, it
//! is a state that is handed what came of the last step and says what the next one is.

mod codec;

pub mod assembly;
pub mod collation_work;
pub mod ed25519;
pub mod error;
pub mod groups;
pub mod hashing;
pub mod instances;
pub mod primitives;
pub mod proposer;
pub mod sessions;
pub mod statement;
pub mod timing;

pub use error::Error;
pub use groups::{make_group_info, GroupInfo, LocalDuty};
pub use primitives::{Incoming, MessagesFrom, Outgoing};
pub use proposer::{CreateProposal, Proposer, ProposerFactory};
pub use statement::{check_statement, sign_table_statement, GenericStatement, Statement};
