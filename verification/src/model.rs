//! The mathematical model of the registry and the effect of each operation on it.

use vstd::prelude::*;

use crate::table::{AttestationKey, CommitmentKey, SubIssuerKey};
use crate::types::{
    Address, BridgeAttestation, ContractError, Credential, CredentialCommitment, Event, Identity,
    Issuer, Schema,
};

verus! {

/// The whole state of the registry.
#[verifier::ext_equal]
pub struct RegistryModel {
    /// The administrator; `None` until the registry is initialized.
    pub admin: Option<Address>,
    /// The number of credentials ever created; also the last credential id.
    pub credential_count: u64,
    /// The number of schemas ever registered; also the last schema id.
    pub schema_count: u32,
    pub issuers: Map<Address, Issuer>,
    pub schemas: Map<u32, Schema>,
    pub credentials: Map<u64, Credential>,
    pub identities: Map<Address, Identity>,
    /// The ids of each subject's credentials, in issue order.
    pub subject_credentials: Map<Address, Seq<u64>>,
    pub sub_issuers: Map<SubIssuerKey, bool>,
    pub bridge_operators: Map<Address, bool>,
    pub bridged_attestations: Map<AttestationKey, bool>,
    /// The ids of each subject's bridged credentials, in bridge order.
    pub subject_bridge_credentials: Map<Address, Seq<u64>>,
    pub bridge_metadata: Map<u64, BridgeAttestation>,
    pub commitments: Map<CommitmentKey, CredentialCommitment>,
    /// The events published so far, oldest first.
    pub events: Seq<Event>,
}

/// A registry that has never been used.
pub open spec fn empty_registry() -> RegistryModel {
    RegistryModel {
        admin: None,
        credential_count: 0,
        schema_count: 0,
        issuers: Map::empty(),
        schemas: Map::empty(),
        credentials: Map::empty(),
        identities: Map::empty(),
        subject_credentials: Map::empty(),
        sub_issuers: Map::empty(),
        bridge_operators: Map::empty(),
        bridged_attestations: Map::empty(),
        subject_bridge_credentials: Map::empty(),
        bridge_metadata: Map::empty(),
        commitments: Map::empty(),
        events: Seq::empty(),
    }
}

/// The list stored under `a`, or the empty list.
pub open spec fn ids_of(lists: Map<Address, Seq<u64>>, a: Address) -> Seq<u64> {
    if lists.contains_key(a) {
        lists[a]
    } else {
        Seq::empty()
    }
}

/// `min(credential_count * 10 + trust_level / 10, 1000)`.
pub open spec fn reputation(credential_count: int, trust_level: int) -> int {
    let score = credential_count * 10 + trust_level / 10;
    if score < 1000 {
        score
    } else {
        1000
    }
}

/// The expiry of a credential issued at `now` for `duration` seconds; `0` (never)
/// when `duration` is `0`.
pub open spec fn expiry(now: u64, duration: u64) -> int {
    if duration > 0 {
        now + duration
    } else {
        0
    }
}

/// The credential is not revoked and has not expired at `now`.
pub open spec fn is_live(c: Credential, now: u64) -> bool {
    !c.revoked && (c.expires_at == 0 || c.expires_at > now)
}

/// The outcome of an operation: a refusal, or the next state and a result.
pub type Outcome<T> = Result<(RegistryModel, T), ContractError>;

/// `result` and the state `after` are what `expected` prescribes for the state
/// `before`: on a refusal, the state is unchanged and the refusal is reported.
pub open spec fn outcome<T>(
    before: RegistryModel,
    after: RegistryModel,
    result: Result<T, ContractError>,
    expected: Outcome<T>,
) -> bool {
    match expected {
        Ok((next, value)) => after == next && result == Ok::<T, ContractError>(value),
        Err(e) => after == before && result == Err::<T, ContractError>(e),
    }
}

/// The refusal owed when `caller` is not the initialized registry's admin.
pub open spec fn admin_refusal(s: RegistryModel, caller: Address, refusal: ContractError) -> Option<
    ContractError,
> {
    match s.admin {
        None => Some(ContractError::NotInitialized),
        Some(a) => if a == caller {
            None
        } else {
            Some(refusal)
        },
    }
}

pub open spec fn initialize_op(s: RegistryModel, admin: Address) -> Outcome<()> {
    if s.admin is Some {
        Err(ContractError::AlreadyInitialized)
    } else {
        Ok((RegistryModel { admin: Some(admin), credential_count: 0, schema_count: 0, ..s }, ()))
    }
}

pub open spec fn register_issuer_op(
    s: RegistryModel,
    admin: Address,
    issuer: Address,
    name: Vec<u8>,
    trust_level: u32,
) -> Outcome<()> {
    match admin_refusal(s, admin, ContractError::OnlyAdminCanRegisterIssuers) {
        Some(e) => Err(e),
        None => if !(1 <= trust_level <= 100) {
            Err(ContractError::InvalidTrustLevel)
        } else {
            let record = Issuer {
                address: issuer,
                name,
                trust_level,
                active: true,
                credential_count: 0,
            };
            Ok(
                (
                    RegistryModel {
                        issuers: s.issuers.insert(issuer, record),
                        events: s.events.push(Event::IssuerRegistered { issuer }),
                        ..s
                    },
                    (),
                ),
            )
        },
    }
}

pub open spec fn deactivate_issuer_op(s: RegistryModel, admin: Address, issuer: Address) -> Outcome<
    (),
> {
    match admin_refusal(s, admin, ContractError::OnlyAdminCanDeactivateIssuers) {
        Some(e) => Err(e),
        None => if !s.issuers.contains_key(issuer) {
            Err(ContractError::IssuerNotFound)
        } else {
            Ok(
                (
                    RegistryModel {
                        issuers: s.issuers.insert(issuer, Issuer { active: false, ..s.issuers[issuer] }),
                        events: s.events.push(Event::IssuerDeactivated { issuer }),
                        ..s
                    },
                    (),
                ),
            )
        },
    }
}

pub open spec fn register_bridge_operator_op(
    s: RegistryModel,
    admin: Address,
    operator: Address,
) -> Outcome<()> {
    match admin_refusal(s, admin, ContractError::OnlyAdminCanRegisterBridgeOperators) {
        Some(e) => Err(e),
        None => Ok(
            (
                RegistryModel {
                    bridge_operators: s.bridge_operators.insert(operator, true),
                    events: s.events.push(Event::BridgeOperatorRegistered { operator }),
                    ..s
                },
                (),
            ),
        ),
    }
}

pub open spec fn revoke_bridge_operator_op(
    s: RegistryModel,
    admin: Address,
    operator: Address,
) -> Outcome<()> {
    match admin_refusal(s, admin, ContractError::OnlyAdminCanRevokeBridgeOperators) {
        Some(e) => Err(e),
        None => Ok(
            (
                RegistryModel {
                    bridge_operators: s.bridge_operators.insert(operator, false),
                    events: s.events.push(Event::BridgeOperatorRevoked { operator }),
                    ..s
                },
                (),
            ),
        ),
    }
}

pub open spec fn authorize_sub_issuer_op(s: RegistryModel, parent: Address, sub_issuer: Address) -> Outcome<
    (),
> {
    if !s.issuers.contains_key(parent) {
        Err(ContractError::ParentIssuerNotFound)
    } else {
        Ok(
            (
                RegistryModel {
                    sub_issuers: s.sub_issuers.insert(SubIssuerKey { parent, sub_issuer }, true),
                    events: s.events.push(Event::SubIssuerAuthorized { parent, sub_issuer }),
                    ..s
                },
                (),
            ),
        )
    }
}

pub open spec fn revoke_sub_issuer_op(s: RegistryModel, parent: Address, sub_issuer: Address) -> Outcome<
    (),
> {
    Ok(
        (
            RegistryModel {
                sub_issuers: s.sub_issuers.insert(SubIssuerKey { parent, sub_issuer }, false),
                events: s.events.push(Event::SubIssuerRevoked { parent, sub_issuer }),
                ..s
            },
            (),
        ),
    )
}

pub open spec fn register_schema_op(
    s: RegistryModel,
    issuer: Address,
    name: Vec<u8>,
    description: Vec<u8>,
) -> Outcome<u32> {
    if !s.issuers.contains_key(issuer) {
        Err(ContractError::IssuerNotFound)
    } else if !s.issuers[issuer].active {
        Err(ContractError::IssuerNotActive)
    } else if name@.len() == 0 {
        Err(ContractError::EmptySchemaName)
    } else if s.schema_count == u32::MAX {
        Err(ContractError::ArithmeticOverflow)
    } else {
        let id = (s.schema_count + 1) as u32;
        let schema = Schema { id, name, description, issuer, active: true };
        Ok(
            (
                RegistryModel {
                    schemas: s.schemas.insert(id, schema),
                    schema_count: id,
                    events: s.events.push(Event::SchemaRegistered { schema_id: id, issuer }),
                    ..s
                },
                id,
            ),
        )
    }
}

pub open spec fn deactivate_schema_op(s: RegistryModel, issuer: Address, schema_id: u32) -> Outcome<
    (),
> {
    if !s.schemas.contains_key(schema_id) {
        Err(ContractError::SchemaNotFound)
    } else if s.schemas[schema_id].issuer != issuer {
        Err(ContractError::NotSchemaOwner)
    } else if !s.schemas[schema_id].active {
        Err(ContractError::SchemaAlreadyInactive)
    } else {
        Ok(
            (
                RegistryModel {
                    schemas: s.schemas.insert(schema_id, Schema { active: false, ..s.schemas[schema_id] }),
                    events: s.events.push(Event::SchemaDeactivated { schema_id, issuer }),
                    ..s
                },
                (),
            ),
        )
    }
}

/// The refusal owed when `issuer` may not issue credentials of `schema_id`.
pub open spec fn issuance_refusal(s: RegistryModel, issuer: Address, schema_id: u32) -> Option<
    ContractError,
> {
    if !s.issuers.contains_key(issuer) {
        Some(ContractError::NotARegisteredIssuer)
    } else if !s.issuers[issuer].active {
        Some(ContractError::IssuerNotActive)
    } else if !s.schemas.contains_key(schema_id) {
        Some(ContractError::SchemaNotFound)
    } else if !s.schemas[schema_id].active {
        Some(ContractError::SchemaNotActive)
    } else {
        None
    }
}

/// Whether the subject's identity already counts as many credentials as a `u32`
/// holds, so that one more cannot be counted.
pub open spec fn identity_overflows(identities: Map<Address, Identity>, subject: Address) -> bool {
    identities.contains_key(subject) && identities[subject].credential_count == u32::MAX
}

/// The subject's identity after one more credential from an issuer of
/// `trust_level`: the count goes up by one and the reputation is recomputed from
/// the new count.
pub open spec fn identity_after_issue(
    identities: Map<Address, Identity>,
    subject: Address,
    trust_level: u32,
    now: u64,
) -> Identity {
    if identities.contains_key(subject) {
        let count = identities[subject].credential_count + 1;
        Identity {
            credential_count: count as u32,
            reputation_score: reputation(count, trust_level as int) as u32,
            ..identities[subject]
        }
    } else {
        Identity {
            subject,
            credential_count: 1,
            reputation_score: reputation(1, trust_level as int) as u32,
            created_at: now,
        }
    }
}

/// Creating one credential for `subject`: the next id, the credential, the
/// subject's list of credentials and the subject's identity.
pub open spec fn issue_step(
    s: RegistryModel,
    issuer: Address,
    subject: Address,
    schema_id: u32,
    expires_at: u64,
    trust_level: u32,
    now: u64,
) -> Outcome<u64> {
    if s.credential_count == u64::MAX {
        Err(ContractError::ArithmeticOverflow)
    } else if identity_overflows(s.identities, subject) {
        Err(ContractError::ArithmeticOverflow)
    } else {
        let id = (s.credential_count + 1) as u64;
        let credential = Credential {
            id,
            subject,
            issuer,
            schema_id,
            issued_at: now,
            expires_at,
            revoked: false,
        };
        Ok(
            (
                RegistryModel {
                    credentials: s.credentials.insert(id, credential),
                    credential_count: id,
                    subject_credentials: s.subject_credentials.insert(
                        subject,
                        ids_of(s.subject_credentials, subject).push(id),
                    ),
                    identities: s.identities.insert(
                        subject,
                        identity_after_issue(s.identities, subject, trust_level, now),
                    ),
                    ..s
                },
                id,
            ),
        )
    }
}

pub open spec fn issue_credential_op(
    s: RegistryModel,
    issuer: Address,
    subject: Address,
    schema_id: u32,
    duration_seconds: u64,
    now: u64,
) -> Outcome<u64> {
    match issuance_refusal(s, issuer, schema_id) {
        Some(e) => Err(e),
        None => if expiry(now, duration_seconds) > u64::MAX {
            Err(ContractError::ArithmeticOverflow)
        } else {
            let record = s.issuers[issuer];
            match issue_step(
                s,
                issuer,
                subject,
                schema_id,
                expiry(now, duration_seconds) as u64,
                record.trust_level,
                now,
            ) {
                Err(e) => Err(e),
                Ok((s1, id)) => if record.credential_count == u64::MAX {
                    Err(ContractError::ArithmeticOverflow)
                } else {
                    Ok(
                        (
                            RegistryModel {
                                issuers: s1.issuers.insert(
                                    issuer,
                                    Issuer {
                                        credential_count: (record.credential_count + 1) as u64,
                                        ..record
                                    },
                                ),
                                events: s1.events.push(
                                    Event::CredentialIssued { credential_id: id, subject, issuer },
                                ),
                                ..s1
                            },
                            id,
                        ),
                    )
                },
            }
        },
    }
}

/// Creating one credential for each of `subjects`, in order.
pub open spec fn issue_each(
    s: RegistryModel,
    issuer: Address,
    subjects: Seq<Address>,
    schema_id: u32,
    expires_at: u64,
    trust_level: u32,
    now: u64,
) -> Outcome<Seq<u64>>
    decreases subjects.len(),
{
    if subjects.len() == 0 {
        Ok((s, Seq::empty()))
    } else {
        match issue_each(s, issuer, subjects.drop_last(), schema_id, expires_at, trust_level, now) {
            Err(e) => Err(e),
            Ok((s1, ids)) => match issue_step(
                s1,
                issuer,
                subjects.last(),
                schema_id,
                expires_at,
                trust_level,
                now,
            ) {
                Err(e) => Err(e),
                Ok((s2, id)) => Ok((s2, ids.push(id))),
            },
        }
    }
}

pub open spec fn batch_issue_credentials_op(
    s: RegistryModel,
    issuer: Address,
    subjects: Seq<Address>,
    schema_id: u32,
    duration_seconds: u64,
    now: u64,
) -> Outcome<Seq<u64>> {
    if subjects.len() == 0 {
        Err(ContractError::EmptySubjects)
    } else {
        match issuance_refusal(s, issuer, schema_id) {
            Some(e) => Err(e),
            None => if expiry(now, duration_seconds) > u64::MAX {
                Err(ContractError::ArithmeticOverflow)
            } else {
                let record = s.issuers[issuer];
                match issue_each(
                    s,
                    issuer,
                    subjects,
                    schema_id,
                    expiry(now, duration_seconds) as u64,
                    record.trust_level,
                    now,
                ) {
                    Err(e) => Err(e),
                    Ok((s1, ids)) => if record.credential_count + subjects.len() > u64::MAX {
                        Err(ContractError::ArithmeticOverflow)
                    } else {
                        Ok(
                            (
                                RegistryModel {
                                    issuers: s1.issuers.insert(
                                        issuer,
                                        Issuer {
                                            credential_count: (record.credential_count
                                                + subjects.len()) as u64,
                                            ..record
                                        },
                                    ),
                                    events: s1.events.push(
                                        Event::CredentialsBatchIssued {
                                            count: subjects.len() as u32,
                                            issuer,
                                            schema_id,
                                        },
                                    ),
                                    ..s1
                                },
                                ids,
                            ),
                        )
                    },
                }
            },
        }
    }
}

/// The key under which an attestation is recorded as bridged.
pub open spec fn attestation_key(data: BridgeAttestation) -> AttestationKey {
    AttestationKey { evm_chain_id: data.evm_chain_id, evm_uid: data.evm_uid }
}

/// The subject's identity after one more bridged credential: bridged credentials
/// count, but do not change the reputation.
pub open spec fn identity_after_bridge(
    identities: Map<Address, Identity>,
    subject: Address,
    now: u64,
) -> Identity {
    if identities.contains_key(subject) {
        Identity {
            credential_count: (identities[subject].credential_count + 1) as u32,
            ..identities[subject]
        }
    } else {
        Identity { subject, credential_count: 1, reputation_score: 0, created_at: now }
    }
}

pub open spec fn bridge_credential_op(
    s: RegistryModel,
    operator: Address,
    subject: Address,
    schema_id: u32,
    bridge_data: BridgeAttestation,
    duration_seconds: u64,
    now: u64,
) -> Outcome<u64> {
    let key = attestation_key(bridge_data);
    if !(s.bridge_operators.contains_key(operator) && s.bridge_operators[operator]) {
        Err(ContractError::NotABridgeOperator)
    } else if s.bridged_attestations.contains_key(key) && s.bridged_attestations[key] {
        Err(ContractError::AttestationAlreadyBridged)
    } else if bridge_data.evm_expiry > 0 && bridge_data.evm_expiry <= now {
        Err(ContractError::EvmAttestationExpired)
    } else if s.credential_count == u64::MAX || expiry(now, duration_seconds) > u64::MAX
        || identity_overflows(s.identities, subject) {
        Err(ContractError::ArithmeticOverflow)
    } else {
        let id = (s.credential_count + 1) as u64;
        let credential = Credential {
            id,
            subject,
            issuer: operator,
            schema_id,
            issued_at: now,
            expires_at: expiry(now, duration_seconds) as u64,
            revoked: false,
        };
        Ok(
            (
                RegistryModel {
                    credentials: s.credentials.insert(id, credential),
                    bridge_metadata: s.bridge_metadata.insert(id, bridge_data),
                    credential_count: id,
                    bridged_attestations: s.bridged_attestations.insert(key, true),
                    subject_bridge_credentials: s.subject_bridge_credentials.insert(
                        subject,
                        ids_of(s.subject_bridge_credentials, subject).push(id),
                    ),
                    subject_credentials: s.subject_credentials.insert(
                        subject,
                        ids_of(s.subject_credentials, subject).push(id),
                    ),
                    identities: s.identities.insert(
                        subject,
                        identity_after_bridge(s.identities, subject, now),
                    ),
                    events: s.events.push(
                        Event::CredentialBridged {
                            credential_id: id,
                            subject,
                            operator,
                            evm_chain_id: bridge_data.evm_chain_id,
                            evm_uid: bridge_data.evm_uid,
                        },
                    ),
                    ..s
                },
                id,
            ),
        )
    }
}

pub open spec fn revoke_credential_op(s: RegistryModel, issuer: Address, credential_id: u64) -> Outcome<
    (),
> {
    if !s.credentials.contains_key(credential_id) {
        Err(ContractError::CredentialNotFound)
    } else if s.credentials[credential_id].issuer != issuer {
        Err(ContractError::NotCredentialIssuerForRevoke)
    } else if s.credentials[credential_id].revoked {
        Err(ContractError::CredentialAlreadyRevoked)
    } else {
        Ok(
            (
                RegistryModel {
                    credentials: s.credentials.insert(
                        credential_id,
                        Credential { revoked: true, ..s.credentials[credential_id] },
                    ),
                    events: s.events.push(Event::CredentialRevoked { credential_id, issuer }),
                    ..s
                },
                (),
            ),
        )
    }
}

pub open spec fn renew_credential_op(
    s: RegistryModel,
    issuer: Address,
    credential_id: u64,
    additional_seconds: u64,
) -> Outcome<()> {
    if additional_seconds == 0 {
        Err(ContractError::ZeroRenewal)
    } else if !s.credentials.contains_key(credential_id) {
        Err(ContractError::CredentialNotFound)
    } else if s.credentials[credential_id].issuer != issuer {
        Err(ContractError::NotCredentialIssuerForRenew)
    } else if s.credentials[credential_id].revoked {
        Err(ContractError::RenewRevokedCredential)
    } else if s.credentials[credential_id].expires_at == 0 {
        Err(ContractError::RenewNonExpiringCredential)
    } else if s.credentials[credential_id].expires_at + additional_seconds > u64::MAX {
        Err(ContractError::ArithmeticOverflow)
    } else {
        let new_expires_at = (s.credentials[credential_id].expires_at + additional_seconds) as u64;
        Ok(
            (
                RegistryModel {
                    credentials: s.credentials.insert(
                        credential_id,
                        Credential { expires_at: new_expires_at, ..s.credentials[credential_id] },
                    ),
                    events: s.events.push(
                        Event::CredentialRenewed { credential_id, new_expires_at },
                    ),
                    ..s
                },
                (),
            ),
        )
    }
}

pub open spec fn submit_commitment_op(
    s: RegistryModel,
    subject: Address,
    schema_id: u32,
    commitment: [u8; 32],
    now: u64,
) -> Outcome<()> {
    if !s.schemas.contains_key(schema_id) {
        Err(ContractError::SchemaNotFound)
    } else {
        let record = CredentialCommitment { subject, commitment, schema_id, committed_at: now };
        Ok(
            (
                RegistryModel {
                    commitments: s.commitments.insert(CommitmentKey { subject, schema_id }, record),
                    events: s.events.push(
                        Event::CommitmentSubmitted { subject, schema_id, commitment },
                    ),
                    ..s
                },
                (),
            ),
        )
    }
}

/// Credential `credential_id` exists, is of `schema_id` and is live at `now`.
pub open spec fn live_for_schema(s: RegistryModel, credential_id: u64, schema_id: u32, now: u64) -> bool {
    &&& s.credentials.contains_key(credential_id)
    &&& s.credentials[credential_id].schema_id == schema_id
    &&& is_live(s.credentials[credential_id], now)
}

/// Credential `credential_id` exists, was issued by `issuer` and is live at `now`.
pub open spec fn live_from_issuer(s: RegistryModel, credential_id: u64, issuer: Address, now: u64) -> bool {
    &&& s.credentials.contains_key(credential_id)
    &&& s.credentials[credential_id].issuer == issuer
    &&& is_live(s.credentials[credential_id], now)
}

/// One of the subject's credentials is of `schema_id` and live at `now`.
pub open spec fn has_valid_credential_spec(
    s: RegistryModel,
    subject: Address,
    schema_id: u32,
    now: u64,
) -> bool {
    let ids = ids_of(s.subject_credentials, subject);
    exists|i: int| 0 <= i < ids.len() && #[trigger] live_for_schema(s, ids[i], schema_id, now)
}

/// One of the subject's credentials was issued by `issuer` and is live at `now`.
pub open spec fn has_credential_from_issuer_spec(
    s: RegistryModel,
    subject: Address,
    issuer: Address,
    now: u64,
) -> bool {
    let ids = ids_of(s.subject_credentials, subject);
    exists|i: int| 0 <= i < ids.len() && #[trigger] live_from_issuer(s, ids[i], issuer, now)
}

/// The bytes whose SHA-256 digest is a commitment: the credential id as 8
/// little-endian bytes, then the blinding factor.
pub open spec fn commitment_preimage_spec(credential_id: u64, blinding_factor: Seq<u8>) -> Seq<u8> {
    vstd::bytes::spec_u64_to_le_bytes(credential_id) + blinding_factor
}

/// The subject's commitment for `schema_id` equals `digest`, and credential
/// `credential_id` is the subject's, of `schema_id`, and live at `now`.
pub open spec fn commitment_opens(
    s: RegistryModel,
    subject: Address,
    schema_id: u32,
    credential_id: u64,
    digest: Seq<u8>,
    now: u64,
) -> bool {
    let key = CommitmentKey { subject, schema_id };
    &&& s.commitments.contains_key(key)
    &&& s.commitments[key].commitment@ == digest
    &&& s.credentials.contains_key(credential_id)
    &&& s.credentials[credential_id].subject == subject
    &&& s.credentials[credential_id].schema_id == schema_id
    &&& is_live(s.credentials[credential_id], now)
}

/// The subject has a commitment for `schema_id` and one of its credentials of that
/// schema is live at `now`.
pub open spec fn has_valid_commitment_spec(
    s: RegistryModel,
    subject: Address,
    schema_id: u32,
    now: u64,
) -> bool {
    &&& s.commitments.contains_key(CommitmentKey { subject, schema_id })
    &&& has_valid_credential_spec(s, subject, schema_id, now)
}


/// Once creating the credentials of a prefix of `subjects` is refused, creating
/// those of all of `subjects` is refused the same way.
pub proof fn lemma_issue_each_refused_prefix(
    s: RegistryModel,
    issuer: Address,
    subjects: Seq<Address>,
    k: int,
    schema_id: u32,
    expires_at: u64,
    trust_level: u32,
    now: u64,
)
    requires
        0 <= k <= subjects.len(),
        issue_each(s, issuer, subjects.take(k), schema_id, expires_at, trust_level, now) is Err,
    ensures
        issue_each(s, issuer, subjects, schema_id, expires_at, trust_level, now) == issue_each(
            s,
            issuer,
            subjects.take(k),
            schema_id,
            expires_at,
            trust_level,
            now,
        ),
    decreases subjects.len() - k,
{
    if k == subjects.len() {
        assert(subjects.take(k) =~= subjects);
    } else {
        assert(subjects.take(k + 1).drop_last() =~= subjects.take(k));
        lemma_issue_each_refused_prefix(s, issuer, subjects, k + 1, schema_id, expires_at, trust_level, now);
    }
}


/// Creating credentials touches nothing but the credentials, the credential
/// counter, the subjects' lists and the identities.
pub proof fn lemma_issue_each_preserves(
    s: RegistryModel,
    issuer: Address,
    subjects: Seq<Address>,
    schema_id: u32,
    expires_at: u64,
    trust_level: u32,
    now: u64,
)
    requires
        issue_each(s, issuer, subjects, schema_id, expires_at, trust_level, now) is Ok,
    ensures
        ({
            let next = issue_each(s, issuer, subjects, schema_id, expires_at, trust_level, now)->Ok_0.0;
            next == RegistryModel {
                credential_count: next.credential_count,
                credentials: next.credentials,
                subject_credentials: next.subject_credentials,
                identities: next.identities,
                ..s
            }
        }),
    decreases subjects.len(),
{
    if subjects.len() > 0 {
        lemma_issue_each_preserves(s, issuer, subjects.drop_last(), schema_id, expires_at, trust_level, now);
    }
}

} // verus!
