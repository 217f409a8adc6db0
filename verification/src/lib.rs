//! Incremental mirroring of timestamped snapshots to a remote host:
//! inventories, the transfer planner and the decisions of the sync engine.

pub mod actions;
pub mod chunker;
pub mod inventory;
pub mod local;
pub mod planner;
pub mod queue;
pub mod remote;
pub mod util;

pub use inventory::{FileList, TimeStamp};

use remote::Remote;
use vstd::prelude::*;

verus! {

/// What the command line asks for.
pub struct Opt {
    /// The directory of the snapshots on the local file system.
    pub path: String,
    /// Where the backups go.
    pub remote: Remote,
    /// The file of the private key for the remote session.
    pub privkey: String,
    /// The passphrase of that key, if it has one.
    pub privkey_pass: Option<String>,
    pub action: Action,
}

#[derive(Clone, Copy, Debug, PartialEq, Eq, Structural)]
pub enum Action {
    /// Send the snapshots that the remote side lacks.
    Backup {
        /// All of them, not only the most recent ones.
        all: bool,
    },
    /// Show which snapshots would be sent, and how.
    ShowPlan {
        /// All of them, not only the most recent ones.
        all: bool,
    },
    /// List every snapshot and where it resides.
    List,
}

} // verus!
