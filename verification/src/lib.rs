//! The transaction-pool core of a payments chain: a pool for two-dimensional nonces, the iterators
//! that feed block building, the maintenance and validation decisions around them, and the
//! precompile rules they rest on.
pub mod abi;
pub mod addresses;
pub mod best;
pub mod best_2d;
pub mod best_laws;
pub mod best_left;
pub mod best_protocol;
pub mod best_runs;
pub mod best_transactions;
pub mod block_laws;
pub mod block_update;
pub mod coherence;
pub mod counting;
pub mod dispatch;
pub mod error;
pub mod eviction;
pub mod eviction_laws;
pub mod fee_token;
pub mod fee_token_laws;
pub mod hardfork;
pub mod ids;
pub mod insertion;
pub mod insertion_laws;
pub mod invariants;
pub mod iterator_laws;
pub mod keychain;
pub mod limits;
pub mod local_policy;
pub mod maintain;
pub mod maintenance;
pub mod maintenance_laws;
pub mod membership;
pub mod merge_laws;
pub mod ordered;
pub mod pending;
pub mod pool;
pub mod pool_laws;
pub mod pool_state;
pub mod pool_updates;
pub mod precompile_laws;
pub mod precompiles;
pub mod primitives;
pub mod queries;
pub mod query_laws;
pub mod removal;
pub mod sequence_laws;
pub mod sets;
pub mod signature_verifier;
pub mod state_snapshot;
pub mod tip20;
pub mod transaction;
pub mod transaction_laws;
pub mod update_laws;
pub mod updates;
pub mod validation_laws;
pub mod validator;
