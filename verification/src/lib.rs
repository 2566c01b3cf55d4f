//! A verified model of the StellarID credential registry: issuers, credential
//! schemas, credentials, identities with reputation, bridged EVM attestations and
//! privacy-preserving credential commitments.
//!
//! The whole registry state is an ordinary value ([`StellarIdContract`]) whose
//! behaviour is stated against a mathematical model ([`model::RegistryModel`]).
//! Each operation of the registry is a method whose contract says exactly which
//! model state and result it produces, and which error it reports, on every input.

mod bytes;
mod contract;
mod crypto;
pub mod laws;
pub mod model;
mod table;
mod types;

pub use bytes::{bytes_equal, commitment_preimage};
pub use crypto::compute_commitment;


pub use table::{AttestationKey, CommitmentKey, SubIssuerKey, Table, TableKey};
pub use types::{
    Address, AddressKind, BridgeAttestation, ContractError, Credential, CredentialCommitment,
    Event, Identity, Issuer, Schema,
};
pub use contract::StellarIdContract;
