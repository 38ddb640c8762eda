use vstd::prelude::*;

verus! {

/// A JSON-safe constructor-argument value: either a text leaf or a
/// mapping from component names to nested values (for tuple-typed
/// parameters).
pub enum CtorValue {
    Text(String),
    Object(Vec<(String, CtorValue)>),
}

/// One registered contract inside a history entry.
pub struct ContractRecord {
    /// Canonical hex string of the 20-byte on-chain address.
    pub address: String,
    /// Always `false` in this design: proxy detection is a non-goal.
    pub proxy: bool,
    /// Hex string of the creation transaction hash.
    pub deployment_txn: String,
    /// Decoded constructor arguments, one pair per parameter, in
    /// parameter-declaration order; empty when there is no constructor.
    pub constructor: Vec<(String, CtorValue)>,
    /// Present only for recognized factory contract types.
    pub pool_init_code_hash: Option<String>,
}

/// One registration event: a block timestamp, an optional
/// source-control identifier, and the contracts registered by it,
/// keyed by contract name.
pub struct HistoryEntry {
    pub timestamp: u64,
    pub commit_hash: Option<String>,
    pub contracts: Vec<(String, ContractRecord)>,
}

/// The derived most-recent view for one contract name.
pub struct LatestRecord {
    pub address: String,
    pub proxy: bool,
    pub deployment_txn: String,
    pub timestamp: u64,
    pub commit_hash: Option<String>,
    pub pool_init_code_hash: Option<String>,
}

/// The whole per-network ledger: the raw history plus the latest
/// projection, which is always re-derived from history.
pub struct DeploymentLog {
    pub chain_id: String,
    pub latest: Vec<(String, LatestRecord)>,
    pub history: Vec<HistoryEntry>,
}

/// The names inside one entry's contracts map are distinct.
pub open spec fn entry_wf(e: HistoryEntry) -> bool {
    forall|i: int, j: int|
        0 <= i < j < e.contracts@.len() ==> e.contracts@[i].0@ != e.contracts@[j].0@
}

pub open spec fn history_wf(h: Seq<HistoryEntry>) -> bool {
    forall|i: int| 0 <= i < h.len() ==> entry_wf(#[trigger] h[i])
}

/// The entry registers a contract under the given name.
pub open spec fn entry_has_name(e: HistoryEntry, n: Seq<char>) -> bool {
    exists|i: int| 0 <= i < e.contracts@.len() && (#[trigger] e.contracts@[i]).0@ == n
}

/// Some entry of the history registers a contract under the given name.
pub open spec fn hist_has_name(h: Seq<HistoryEntry>, n: Seq<char>) -> bool {
    exists|i: int| 0 <= i < h.len() && entry_has_name(#[trigger] h[i], n)
}

/// The entry registers a contract at the given address.
pub open spec fn entry_has_addr(e: HistoryEntry, a: Seq<char>) -> bool {
    exists|i: int| 0 <= i < e.contracts@.len() && (#[trigger] e.contracts@[i]).1.address@ == a
}

/// Some entry of the history registers a contract at the given address.
pub open spec fn hist_has_addr(h: Seq<HistoryEntry>, a: Seq<char>) -> bool {
    exists|i: int| 0 <= i < h.len() && entry_has_addr(#[trigger] h[i], a)
}

} // verus!
