//! Reconciliation core of a mempool replica: it folds an ordered feed of
//! chain and mempool notifications and an unordered feed of fetched blocks
//! and transactions into one coherent view of the node's mempool and tip.

pub mod types;
pub mod table;
pub mod request_queue;
pub mod ordered_set;
pub mod mempool;
pub mod fee;
pub mod state;
pub mod sync;
pub mod response;
pub mod actor;
pub mod guarantees;
