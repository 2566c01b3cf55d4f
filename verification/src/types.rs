use vstd::prelude::*;

verus! {

/// Which kind of Stellar account an [`Address`] designates.
#[derive(Clone, Copy, Debug, PartialEq, Eq, Structural)]
pub enum AddressKind {
    /// A classic account identified by its ed25519 public key.
    Account,
    /// A contract identified by its contract hash.
    Contract,
}

/// An on-chain address: its kind and its 32-byte key (an ed25519 public key or
/// a contract hash), held as two big-endian 128-bit halves.
#[derive(Clone, Copy, Debug, PartialEq, Eq, Structural)]
pub struct Address {
    pub kind: AddressKind,
    pub key_hi: u128,
    pub key_lo: u128,
}

/// Attestation data bridged from an EVM chain.
#[derive(Clone, Copy, Debug, PartialEq, Eq)]
pub struct BridgeAttestation {
    pub evm_chain_id: u64,
    pub evm_uid: [u8; 32],
    pub evm_attester: [u8; 20],
    pub evm_schema_uid: [u8; 32],
    pub evm_expiry: u64,
    pub bridge_operator: Address,
}

/// A verifiable credential issued to a subject address.
#[derive(Clone, Copy, Debug, PartialEq, Eq, Structural)]
pub struct Credential {
    pub id: u64,
    pub subject: Address,
    pub issuer: Address,
    pub schema_id: u32,
    pub issued_at: u64,
    /// `0` means that the credential never expires.
    pub expires_at: u64,
    pub revoked: bool,
}

/// A credential schema defining a type of credential.
#[derive(Clone, Debug, PartialEq, Eq)]
pub struct Schema {
    pub id: u32,
    pub name: Vec<u8>,
    pub description: Vec<u8>,
    pub issuer: Address,
    pub active: bool,
}

/// An issuer registered in the system.
#[derive(Clone, Debug, PartialEq, Eq)]
pub struct Issuer {
    pub address: Address,
    pub name: Vec<u8>,
    /// In `1..=100`.
    pub trust_level: u32,
    pub active: bool,
    pub credential_count: u64,
}

/// On-chain identity profile for a subject.
#[derive(Clone, Copy, Debug, PartialEq, Eq, Structural)]
pub struct Identity {
    pub subject: Address,
    pub credential_count: u32,
    /// Derived from the credential count and the issuer's trust level.
    pub reputation_score: u32,
    pub created_at: u64,
}

/// A privacy-preserving commitment to a credential: the SHA-256 digest of the
/// credential identifier (8 little-endian bytes) followed by a 32-byte blinding
/// factor, computed by the subject.
#[derive(Clone, Copy, Debug, PartialEq, Eq)]
pub struct CredentialCommitment {
    pub subject: Address,
    pub commitment: [u8; 32],
    pub schema_id: u32,
    pub committed_at: u64,
}

/// An event published by a successful registry operation.
#[derive(Clone, Copy, Debug, PartialEq, Eq)]
pub enum Event {
    IssuerRegistered { issuer: Address },
    IssuerDeactivated { issuer: Address },
    BridgeOperatorRegistered { operator: Address },
    BridgeOperatorRevoked { operator: Address },
    SubIssuerAuthorized { parent: Address, sub_issuer: Address },
    SubIssuerRevoked { parent: Address, sub_issuer: Address },
    SchemaRegistered { schema_id: u32, issuer: Address },
    SchemaDeactivated { schema_id: u32, issuer: Address },
    CredentialIssued { credential_id: u64, subject: Address, issuer: Address },
    CredentialsBatchIssued { count: u32, issuer: Address, schema_id: u32 },
    CredentialBridged {
        credential_id: u64,
        subject: Address,
        operator: Address,
        evm_chain_id: u64,
        evm_uid: [u8; 32],
    },
    CredentialRevoked { credential_id: u64, issuer: Address },
    CredentialRenewed { credential_id: u64, new_expires_at: u64 },
    CommitmentSubmitted { subject: Address, schema_id: u32, commitment: [u8; 32] },
}

/// Why the registry refused a request. A refused request changes nothing.
#[derive(Clone, Copy, Debug, PartialEq, Eq, Structural)]
pub enum ContractError {
    NotInitialized,
    AlreadyInitialized,
    OnlyAdminCanRegisterIssuers,
    OnlyAdminCanDeactivateIssuers,
    OnlyAdminCanRegisterBridgeOperators,
    OnlyAdminCanRevokeBridgeOperators,
    InvalidTrustLevel,
    IssuerNotFound,
    ParentIssuerNotFound,
    NotARegisteredIssuer,
    IssuerNotActive,
    EmptySchemaName,
    SchemaNotFound,
    NotSchemaOwner,
    SchemaAlreadyInactive,
    SchemaNotActive,
    EmptySubjects,
    NotABridgeOperator,
    AttestationAlreadyBridged,
    EvmAttestationExpired,
    CredentialNotFound,
    NotCredentialIssuerForRevoke,
    CredentialAlreadyRevoked,
    ZeroRenewal,
    NotCredentialIssuerForRenew,
    RenewRevokedCredential,
    RenewNonExpiringCredential,
    IdentityNotFound,
    ArithmeticOverflow,
}

/// The text that the registry reports for each refusal.
pub open spec fn error_text(e: ContractError) -> Seq<char> {
    match e {
        ContractError::NotInitialized => "Not initialized"@,
        ContractError::AlreadyInitialized => "Already initialized"@,
        ContractError::OnlyAdminCanRegisterIssuers => "Only admin can register issuers"@,
        ContractError::OnlyAdminCanDeactivateIssuers => "Only admin can deactivate issuers"@,
        ContractError::OnlyAdminCanRegisterBridgeOperators =>
            "Only admin can register bridge operators"@,
        ContractError::OnlyAdminCanRevokeBridgeOperators =>
            "Only admin can revoke bridge operators"@,
        ContractError::InvalidTrustLevel => "Trust level must be 1-100"@,
        ContractError::IssuerNotFound => "Issuer not found"@,
        ContractError::ParentIssuerNotFound => "Parent issuer not found"@,
        ContractError::NotARegisteredIssuer => "Not a registered issuer"@,
        ContractError::IssuerNotActive => "Issuer is not active"@,
        ContractError::EmptySchemaName => "Schema name cannot be empty"@,
        ContractError::SchemaNotFound => "Schema not found"@,
        ContractError::NotSchemaOwner => "Only the original issuer can deactivate this schema"@,
        ContractError::SchemaAlreadyInactive => "Schema is already inactive"@,
        ContractError::SchemaNotActive => "Schema is not active"@,
        ContractError::EmptySubjects => "subjects list cannot be empty"@,
        ContractError::NotABridgeOperator => "Not an authorized bridge operator"@,
        ContractError::AttestationAlreadyBridged => "Attestation already bridged"@,
        ContractError::EvmAttestationExpired => "EVM attestation expired"@,
        ContractError::CredentialNotFound => "Credential not found"@,
        ContractError::NotCredentialIssuerForRevoke => "Only the original issuer can revoke"@,
        ContractError::CredentialAlreadyRevoked => "Credential already revoked"@,
        ContractError::ZeroRenewal => "additional_seconds must be greater than zero"@,
        ContractError::NotCredentialIssuerForRenew => "Only the original issuer can renew"@,
        ContractError::RenewRevokedCredential => "Cannot renew a revoked credential"@,
        ContractError::RenewNonExpiringCredential => "Cannot renew a non-expiring credential"@,
        ContractError::IdentityNotFound => "Identity not found"@,
        ContractError::ArithmeticOverflow => "arithmetic overflow"@,
    }
}

impl ContractError {
    /// The text reported for this refusal.
    pub fn message(&self) -> (text: &'static str)
        ensures
            text@ == error_text(*self),
    {
        match self {
            ContractError::NotInitialized => "Not initialized",
            ContractError::AlreadyInitialized => "Already initialized",
            ContractError::OnlyAdminCanRegisterIssuers => "Only admin can register issuers",
            ContractError::OnlyAdminCanDeactivateIssuers => "Only admin can deactivate issuers",
            ContractError::OnlyAdminCanRegisterBridgeOperators =>
                "Only admin can register bridge operators",
            ContractError::OnlyAdminCanRevokeBridgeOperators =>
                "Only admin can revoke bridge operators",
            ContractError::InvalidTrustLevel => "Trust level must be 1-100",
            ContractError::IssuerNotFound => "Issuer not found",
            ContractError::ParentIssuerNotFound => "Parent issuer not found",
            ContractError::NotARegisteredIssuer => "Not a registered issuer",
            ContractError::IssuerNotActive => "Issuer is not active",
            ContractError::EmptySchemaName => "Schema name cannot be empty",
            ContractError::SchemaNotFound => "Schema not found",
            ContractError::NotSchemaOwner => "Only the original issuer can deactivate this schema",
            ContractError::SchemaAlreadyInactive => "Schema is already inactive",
            ContractError::SchemaNotActive => "Schema is not active",
            ContractError::EmptySubjects => "subjects list cannot be empty",
            ContractError::NotABridgeOperator => "Not an authorized bridge operator",
            ContractError::AttestationAlreadyBridged => "Attestation already bridged",
            ContractError::EvmAttestationExpired => "EVM attestation expired",
            ContractError::CredentialNotFound => "Credential not found",
            ContractError::NotCredentialIssuerForRevoke => "Only the original issuer can revoke",
            ContractError::CredentialAlreadyRevoked => "Credential already revoked",
            ContractError::ZeroRenewal => "additional_seconds must be greater than zero",
            ContractError::NotCredentialIssuerForRenew => "Only the original issuer can renew",
            ContractError::RenewRevokedCredential => "Cannot renew a revoked credential",
            ContractError::RenewNonExpiringCredential => "Cannot renew a non-expiring credential",
            ContractError::IdentityNotFound => "Identity not found",
            ContractError::ArithmeticOverflow => "arithmetic overflow",
        }
    }
}

} // verus!
