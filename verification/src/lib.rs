//! Asset vaults, transaction batches and their kernel interface.
pub mod account;
pub mod asset;
pub mod asset_laws;
pub mod batch;
pub mod batch_id;
pub mod batch_laws;
pub mod delta;
pub mod faucet;
pub mod faucet_laws;
pub mod hash;
pub mod kernel;
pub mod kernel_laws;
pub mod key_laws;
pub mod key_map;
pub mod merkle;
pub mod model_laws;
pub mod outcome_laws;
pub mod partial_laws;
pub mod partial_vault;
pub mod paths;
pub mod prover;
pub mod transaction;
pub mod vault;
pub mod vault_key;
pub mod vault_laws;
pub mod vm;
pub mod witness;
pub mod witness_laws;
pub mod word;
