//! The registry itself: its state and its operations.

use soroban_sdk::Env;
use vstd::prelude::*;

use crate::crypto::{compute_commitment, sha256_digest};
use crate::model::{
    admin_refusal, authorize_sub_issuer_op, batch_issue_credentials_op,
    bridge_credential_op, commitment_opens, commitment_preimage_spec, deactivate_issuer_op,
    deactivate_schema_op, empty_registry, expiry, has_credential_from_issuer_spec,
    has_valid_commitment_spec, has_valid_credential_spec, identity_after_bridge,
    identity_after_issue, identity_overflows, ids_of, initialize_op, issuance_refusal,
    issue_credential_op, issue_each, issue_step, lemma_issue_each_preserves, lemma_issue_each_refused_prefix, live_for_schema, live_from_issuer, outcome,
    register_bridge_operator_op, register_issuer_op, register_schema_op, renew_credential_op,
    reputation, revoke_bridge_operator_op, revoke_credential_op, revoke_sub_issuer_op,
    submit_commitment_op, RegistryModel,
};
use crate::laws::{apply, law_consistency_preserved, law_empty_registry_consistent, registry_invariant, Operation};
use crate::table::{copy_ids, AttestationKey, CommitmentKey, SubIssuerKey, Table};
use crate::types::{
    Address, BridgeAttestation, ContractError, Credential, CredentialCommitment, Event, Identity,
    Issuer, Schema,
};

verus! {

/// The model of a table of identifier lists: each list by its contents.
pub open spec fn lists_view(lists: Map<Address, Vec<u64>>) -> Map<Address, Seq<u64>> {
    lists.map_values(|ids: Vec<u64>| ids@)
}

proof fn lemma_lists_insert(lists: Map<Address, Vec<u64>>, k: Address, ids: Vec<u64>)
    ensures
        lists_view(lists.insert(k, ids)) == lists_view(lists).insert(k, ids@),
{
    assert(lists_view(lists.insert(k, ids)) =~= lists_view(lists).insert(k, ids@));
}

proof fn lemma_lists_same(a: Map<Address, Vec<u64>>, b: Map<Address, Vec<u64>>)
    requires
        a.dom() == b.dom(),
        forall|k: Address| #[trigger] a.contains_key(k) ==> a[k]@ == b[k]@,
    ensures
        lists_view(a) == lists_view(b),
{
    assert(lists_view(a) =~= lists_view(b));
}

/// The StellarID registry: issuers approved by an admin, the credential schemas
/// they define, the credentials they issue to subjects, the subjects' identities,
/// credentials bridged from EVM attestations, and commitments to credentials.
pub struct StellarIdContract {
    admin: Option<Address>,
    credential_count: u64,
    schema_count: u32,
    issuers: Table<Address, Issuer>,
    schemas: Table<u32, Schema>,
    credentials: Table<u64, Credential>,
    identities: Table<Address, Identity>,
    subject_credentials: Table<Address, Vec<u64>>,
    sub_issuers: Table<SubIssuerKey, bool>,
    bridge_operators: Table<Address, bool>,
    bridged_attestations: Table<AttestationKey, bool>,
    subject_bridge_credentials: Table<Address, Vec<u64>>,
    bridge_metadata: Table<u64, BridgeAttestation>,
    commitments: Table<CommitmentKey, CredentialCommitment>,
    events: Vec<Event>,
}

impl View for StellarIdContract {
    type V = RegistryModel;

    closed spec fn view(&self) -> RegistryModel {
        RegistryModel {
            admin: self.admin,
            credential_count: self.credential_count,
            schema_count: self.schema_count,
            issuers: self.issuers@,
            schemas: self.schemas@,
            credentials: self.credentials@,
            identities: self.identities@,
            subject_credentials: lists_view(self.subject_credentials@),
            sub_issuers: self.sub_issuers@,
            bridge_operators: self.bridge_operators@,
            bridged_attestations: self.bridged_attestations@,
            subject_bridge_credentials: lists_view(self.subject_bridge_credentials@),
            bridge_metadata: self.bridge_metadata@,
            commitments: self.commitments@,
            events: self.events@,
        }
    }
}

/// The registry invariant, kept behind a reveal so that the proofs of the
/// operations do not carry its quantifiers.
#[verifier::opaque]
spec fn consistent(s: RegistryModel) -> bool {
    registry_invariant(s)
}

/// An accepted request leaves a consistent registry consistent.
proof fn lemma_consistent_after(s: RegistryModel, op: Operation)
    requires
        consistent(s),
        apply(s, op) is Some,
    ensures
        consistent(apply(s, op)->Some_0),
{
    reveal(consistent);
    law_consistency_preserved(s, op);
}

impl StellarIdContract {
    /// The registry is valid: its tables are well formed and its records satisfy
    /// the registry invariant.
    pub closed spec fn wf(&self) -> bool {
        &&& self.tables_wf()
        &&& consistent(self@)
    }

    /// The registry's records satisfy the registry invariant.
    pub proof fn lemma_registry_consistent(&self)
        requires
            self.wf(),
        ensures
            registry_invariant(self@),
    {
        reveal(consistent);
    }

    /// The tables are well formed.
    closed spec fn tables_wf(&self) -> bool {
        &&& self.issuers.wf()
        &&& self.schemas.wf()
        &&& self.credentials.wf()
        &&& self.identities.wf()
        &&& self.subject_credentials.wf()
        &&& self.sub_issuers.wf()
        &&& self.bridge_operators.wf()
        &&& self.bridged_attestations.wf()
        &&& self.subject_bridge_credentials.wf()
        &&& self.bridge_metadata.wf()
        &&& self.commitments.wf()
    }

    /// A registry that has never been used: no admin, no records, no events.
    pub fn new() -> (c: Self)
        ensures
            c.wf(),
            c@ == empty_registry(),
    {
        let c = StellarIdContract {
            admin: None,
            credential_count: 0,
            schema_count: 0,
            issuers: Table::new(),
            schemas: Table::new(),
            credentials: Table::new(),
            identities: Table::new(),
            subject_credentials: Table::new(),
            sub_issuers: Table::new(),
            bridge_operators: Table::new(),
            bridged_attestations: Table::new(),
            subject_bridge_credentials: Table::new(),
            bridge_metadata: Table::new(),
            commitments: Table::new(),
            events: Vec::new(),
        };
        assert(lists_view(Map::<Address, Vec<u64>>::empty()) =~= Map::empty());
        assert(c@ =~= empty_registry());
        proof {
            reveal(consistent);
            law_empty_registry_consistent();
        }
        c
    }

    /// Hands out the events published since they were last taken, oldest first.
    pub fn take_events(&mut self) -> (published: Vec<Event>)
        requires
            old(self).wf(),
        ensures
            final(self).wf(),
            published@ == old(self)@.events,
            final(self)@ == (RegistryModel { events: Seq::empty(), ..old(self)@ }),
    {
        let mut published: Vec<Event> = Vec::new();
        std::mem::swap(&mut published, &mut self.events);
        assert(self@ =~= (RegistryModel { events: Seq::empty(), ..old(self)@ }));
        proof {
            reveal(consistent);
        }
        published
    }

    /// `min(credential_count * 10 + trust_level / 10, 1000)`, for every count and
    /// trust level (the sum is formed in 64 bits, where it cannot overflow).
    pub fn compute_reputation(credential_count: u32, trust_level: u32) -> (score: u32)
        ensures
            score == reputation(credential_count as int, trust_level as int),
    {
        let base = credential_count as u64 * 10;
        let trust_bonus = (trust_level / 10) as u64;
        let total = base + trust_bonus;
        if total < 1000 {
            total as u32
        } else {
            1000
        }
    }

    fn check_admin(&self, caller: &Address, refusal: ContractError) -> (r: Result<(), ContractError>)
        ensures
            match admin_refusal(self@, *caller, refusal) {
                Some(e) => r == Err::<(), ContractError>(e),
                None => r == Ok::<(), ContractError>(()),
            },
    {
        match self.admin {
            None => Err(ContractError::NotInitialized),
            Some(a) => if a == *caller {
                Ok(())
            } else {
                Err(refusal)
            },
        }
    }

    /// Records `admin` as the registry's administrator and zeroes the credential
    /// and schema counters. A registry is initialized once.
    pub fn initialize(&mut self, admin: Address) -> (r: Result<(), ContractError>)
        requires
            old(self).wf(),
        ensures
            final(self).wf(),
            outcome(old(self)@, final(self)@, r, initialize_op(old(self)@, admin)),
    {
        if self.admin.is_some() {
            return Err(ContractError::AlreadyInitialized);
        }
        self.admin = Some(admin);
        self.credential_count = 0;
        self.schema_count = 0;
        assert(self@ =~= initialize_op(old(self)@, admin)->Ok_0.0);
        proof { lemma_consistent_after(old(self)@, Operation::Initialize { admin }); }
        Ok(())
    }

    /// Registers `issuer`, active, with no credentials issued, under `name` and
    /// `trust_level` (which must be in `1..=100`). Only the admin may do this.
    pub fn register_issuer(
        &mut self,
        admin: Address,
        issuer: Address,
        name: Vec<u8>,
        trust_level: u32,
    ) -> (r: Result<(), ContractError>)
        requires
            old(self).wf(),
        ensures
            final(self).wf(),
            outcome(
                old(self)@,
                final(self)@,
                r,
                register_issuer_op(old(self)@, admin, issuer, name, trust_level),
            ),
    {
        let ghost s0 = self@;
        if let Err(e) = self.check_admin(&admin, ContractError::OnlyAdminCanRegisterIssuers) {
            return Err(e);
        }
        if !(1 <= trust_level && trust_level <= 100) {
            return Err(ContractError::InvalidTrustLevel);
        }
        let record = Issuer { address: issuer, name, trust_level, active: true, credential_count: 0 };
        self.issuers.insert(issuer, record);
        self.events.push(Event::IssuerRegistered { issuer });
        assert(self@ =~= register_issuer_op(s0, admin, issuer, name, trust_level)->Ok_0.0);
        proof { lemma_consistent_after(s0, Operation::RegisterIssuer { admin, issuer, name, trust_level }); }
        Ok(())
    }

    /// Marks `issuer` inactive; its record stays. Only the admin may do this.
    pub fn deactivate_issuer(&mut self, admin: Address, issuer: Address) -> (r: Result<(), ContractError>)
        requires
            old(self).wf(),
        ensures
            final(self).wf(),
            outcome(old(self)@, final(self)@, r, deactivate_issuer_op(old(self)@, admin, issuer)),
    {
        let ghost s0 = self@;
        if let Err(e) = self.check_admin(&admin, ContractError::OnlyAdminCanDeactivateIssuers) {
            return Err(e);
        }
        let mut record = match self.issuers.remove(&issuer) {
            Some(record) => record,
            None => return Err(ContractError::IssuerNotFound),
        };
        record.active = false;
        self.issuers.insert(issuer, record);
        self.events.push(Event::IssuerDeactivated { issuer });
        assert(self.issuers@ =~= s0.issuers.insert(issuer, Issuer { active: false, ..s0.issuers[issuer] }));
        assert(self@ =~= deactivate_issuer_op(s0, admin, issuer)->Ok_0.0);
        proof { lemma_consistent_after(s0, Operation::DeactivateIssuer { admin, issuer }); }
        Ok(())
    }

    /// Authorizes `operator` to bridge EVM attestations. Only the admin may do this.
    pub fn register_bridge_operator(&mut self, admin: Address, operator: Address) -> (r: Result<
        (),
        ContractError,
    >)
        requires
            old(self).wf(),
        ensures
            final(self).wf(),
            outcome(
                old(self)@,
                final(self)@,
                r,
                register_bridge_operator_op(old(self)@, admin, operator),
            ),
    {
        let ghost s0 = self@;
        if let Err(e) = self.check_admin(&admin, ContractError::OnlyAdminCanRegisterBridgeOperators) {
            return Err(e);
        }
        self.bridge_operators.insert(operator, true);
        self.events.push(Event::BridgeOperatorRegistered { operator });
        assert(self@ =~= register_bridge_operator_op(s0, admin, operator)->Ok_0.0);
        proof { lemma_consistent_after(s0, Operation::RegisterBridgeOperator { admin, operator }); }
        Ok(())
    }

    /// Withdraws `operator`'s authorization to bridge. Only the admin may do this.
    pub fn revoke_bridge_operator(&mut self, admin: Address, operator: Address) -> (r: Result<
        (),
        ContractError,
    >)
        requires
            old(self).wf(),
        ensures
            final(self).wf(),
            outcome(
                old(self)@,
                final(self)@,
                r,
                revoke_bridge_operator_op(old(self)@, admin, operator),
            ),
    {
        let ghost s0 = self@;
        if let Err(e) = self.check_admin(&admin, ContractError::OnlyAdminCanRevokeBridgeOperators) {
            return Err(e);
        }
        self.bridge_operators.insert(operator, false);
        self.events.push(Event::BridgeOperatorRevoked { operator });
        assert(self@ =~= revoke_bridge_operator_op(s0, admin, operator)->Ok_0.0);
        proof { lemma_consistent_after(s0, Operation::RevokeBridgeOperator { admin, operator }); }
        Ok(())
    }

    /// Authorizes `sub_issuer` under the registered issuer `parent`.
    pub fn authorize_sub_issuer(&mut self, parent: Address, sub_issuer: Address) -> (r: Result<
        (),
        ContractError,
    >)
        requires
            old(self).wf(),
        ensures
            final(self).wf(),
            outcome(
                old(self)@,
                final(self)@,
                r,
                authorize_sub_issuer_op(old(self)@, parent, sub_issuer),
            ),
    {
        let ghost s0 = self@;
        if !self.issuers.contains_key(&parent) {
            return Err(ContractError::ParentIssuerNotFound);
        }
        self.sub_issuers.insert(SubIssuerKey { parent, sub_issuer }, true);
        self.events.push(Event::SubIssuerAuthorized { parent, sub_issuer });
        assert(self@ =~= authorize_sub_issuer_op(s0, parent, sub_issuer)->Ok_0.0);
        proof { lemma_consistent_after(s0, Operation::AuthorizeSubIssuer { parent, sub_issuer }); }
        Ok(())
    }

    /// Withdraws the authorization of `sub_issuer` under `parent`; the relation is
    /// kept, as unauthorized.
    pub fn revoke_sub_issuer(&mut self, parent: Address, sub_issuer: Address) -> (r: Result<
        (),
        ContractError,
    >)
        requires
            old(self).wf(),
        ensures
            final(self).wf(),
            outcome(old(self)@, final(self)@, r, revoke_sub_issuer_op(old(self)@, parent, sub_issuer)),
    {
        let ghost s0 = self@;
        self.sub_issuers.insert(SubIssuerKey { parent, sub_issuer }, false);
        self.events.push(Event::SubIssuerRevoked { parent, sub_issuer });
        assert(self@ =~= revoke_sub_issuer_op(s0, parent, sub_issuer)->Ok_0.0);
        proof { lemma_consistent_after(s0, Operation::RevokeSubIssuer { parent, sub_issuer }); }
        Ok(())
    }

    /// Registers a new active schema owned by the active issuer `issuer`, and
    /// returns its id: one more than the number of schemas registered before.
    pub fn register_schema(&mut self, issuer: Address, name: Vec<u8>, description: Vec<u8>) -> (r:
        Result<u32, ContractError>)
        requires
            old(self).wf(),
        ensures
            final(self).wf(),
            outcome(
                old(self)@,
                final(self)@,
                r,
                register_schema_op(old(self)@, issuer, name, description),
            ),
    {
        let ghost s0 = self@;
        match self.issuers.get(&issuer) {
            None => return Err(ContractError::IssuerNotFound),
            Some(record) => if !record.active {
                return Err(ContractError::IssuerNotActive);
            },
        }
        if name.len() == 0 {
            return Err(ContractError::EmptySchemaName);
        }
        if self.schema_count == u32::MAX {
            return Err(ContractError::ArithmeticOverflow);
        }
        let schema_id = self.schema_count + 1;
        let schema = Schema { id: schema_id, name, description, issuer, active: true };
        self.schemas.insert(schema_id, schema);
        self.schema_count = schema_id;
        self.events.push(Event::SchemaRegistered { schema_id, issuer });
        assert(self@ =~= register_schema_op(s0, issuer, name, description)->Ok_0.0);
        proof { lemma_consistent_after(s0, Operation::RegisterSchema { issuer, name, description }); }
        Ok(schema_id)
    }

    /// Marks schema `schema_id` inactive, so that no new credentials of it are
    /// issued; existing credentials are untouched. Only its owner may do this.
    pub fn deactivate_schema(&mut self, issuer: Address, schema_id: u32) -> (r: Result<
        (),
        ContractError,
    >)
        requires
            old(self).wf(),
        ensures
            final(self).wf(),
            outcome(old(self)@, final(self)@, r, deactivate_schema_op(old(self)@, issuer, schema_id)),
    {
        let ghost s0 = self@;
        match self.schemas.get(&schema_id) {
            None => return Err(ContractError::SchemaNotFound),
            Some(schema) => {
                if schema.issuer != issuer {
                    return Err(ContractError::NotSchemaOwner);
                }
                if !schema.active {
                    return Err(ContractError::SchemaAlreadyInactive);
                }
            },
        }
        let mut schema = match self.schemas.remove(&schema_id) {
            Some(schema) => schema,
            None => return Err(ContractError::SchemaNotFound),
        };
        schema.active = false;
        self.schemas.insert(schema_id, schema);
        self.events.push(Event::SchemaDeactivated { schema_id, issuer });
        assert(self.schemas@ =~= s0.schemas.insert(
            schema_id,
            Schema { active: false, ..s0.schemas[schema_id] },
        ));
        assert(self@ =~= deactivate_schema_op(s0, issuer, schema_id)->Ok_0.0);
        proof { lemma_consistent_after(s0, Operation::DeactivateSchema { issuer, schema_id }); }
        Ok(())
    }

    /// The trust level of `issuer` when it may issue credentials of `schema_id`.
    fn check_issuance(&self, issuer: &Address, schema_id: u32) -> (r: Result<u32, ContractError>)
        requires
            self.tables_wf(),
        ensures
            match issuance_refusal(self@, *issuer, schema_id) {
                Some(e) => r == Err::<u32, ContractError>(e),
                None => r == Ok::<u32, ContractError>(self@.issuers[*issuer].trust_level),
            },
    {
        let trust_level = match self.issuers.get(issuer) {
            None => return Err(ContractError::NotARegisteredIssuer),
            Some(record) => {
                if !record.active {
                    return Err(ContractError::IssuerNotActive);
                }
                record.trust_level
            },
        };
        match self.schemas.get(&schema_id) {
            None => Err(ContractError::SchemaNotFound),
            Some(schema) => if !schema.active {
                Err(ContractError::SchemaNotActive)
            } else {
                Ok(trust_level)
            },
        }
    }

    /// Appends `id` to the list of `subject` in `lists`.
    fn append_id(lists: &mut Table<Address, Vec<u64>>, subject: Address, id: u64)
        requires
            old(lists).wf(),
        ensures
            final(lists).wf(),
            lists_view(final(lists)@) == lists_view(old(lists)@).insert(
                subject,
                ids_of(lists_view(old(lists)@), subject).push(id),
            ),
    {
        let ghost before = lists@;
        let mut ids = match lists.remove(&subject) {
            Some(ids) => ids,
            None => Vec::new(),
        };
        proof {
            if before.contains_key(subject) {
                assert(lists_view(before)[subject] == before[subject]@);
            } else {
                assert(!lists_view(before).contains_key(subject));
            }
        }
        ids.push(id);
        let ghost pushed = ids;
        lists.insert(subject, ids);
        proof {
            assert(lists@ =~= before.insert(subject, pushed));
            lemma_lists_insert(before, subject, pushed);
        }
    }

    /// Creates one credential for `subject`: the next id, the credential, the
    /// subject's list of credentials and the subject's identity.
    fn issue_one(
        &mut self,
        issuer: Address,
        subject: Address,
        schema_id: u32,
        expires_at: u64,
        trust_level: u32,
        now: u64,
    ) -> (r: Result<u64, ContractError>)
        requires
            old(self).tables_wf(),
        ensures
            final(self).tables_wf(),
            outcome(
                old(self)@,
                final(self)@,
                r,
                issue_step(old(self)@, issuer, subject, schema_id, expires_at, trust_level, now),
            ),
    {
        let ghost s0 = self@;
        if self.credential_count == u64::MAX {
            return Err(ContractError::ArithmeticOverflow);
        }
        let identity = match self.identities.get(&subject) {
            Some(existing) => {
                if existing.credential_count == u32::MAX {
                    return Err(ContractError::ArithmeticOverflow);
                }
                let count = existing.credential_count + 1;
                Identity {
                    subject: existing.subject,
                    credential_count: count,
                    reputation_score: Self::compute_reputation(count, trust_level),
                    created_at: existing.created_at,
                }
            },
            None => Identity {
                subject,
                credential_count: 1,
                reputation_score: Self::compute_reputation(1, trust_level),
                created_at: now,
            },
        };
        assert(!identity_overflows(s0.identities, subject));
        assert(identity == identity_after_issue(s0.identities, subject, trust_level, now));
        let credential_id = self.credential_count + 1;
        let credential = Credential {
            id: credential_id,
            subject,
            issuer,
            schema_id,
            issued_at: now,
            expires_at,
            revoked: false,
        };
        self.credentials.insert(credential_id, credential);
        self.credential_count = credential_id;
        Self::append_id(&mut self.subject_credentials, subject, credential_id);
        self.identities.insert(subject, identity);
        assert(self@ =~= issue_step(s0, issuer, subject, schema_id, expires_at, trust_level, now)->Ok_0.0);
        Ok(credential_id)
    }

    /// Adds `count` to the number of credentials issued by `issuer`.
    fn count_issued(&mut self, issuer: Address, count: u64)
        requires
            old(self).tables_wf(),
            old(self)@.issuers.contains_key(issuer),
            old(self)@.issuers[issuer].credential_count + count <= u64::MAX,
        ensures
            final(self).tables_wf(),
            final(self)@ == (RegistryModel {
                issuers: old(self)@.issuers.insert(
                    issuer,
                    Issuer {
                        credential_count: (old(self)@.issuers[issuer].credential_count + count) as u64,
                        ..old(self)@.issuers[issuer]
                    },
                ),
                ..old(self)@
            }),
    {
        let ghost s0 = self@;
        let mut record = match self.issuers.remove(&issuer) {
            Some(record) => record,
            None => return,
        };
        record.credential_count = record.credential_count + count;
        self.issuers.insert(issuer, record);
        assert(self.issuers@ =~= s0.issuers.insert(
            issuer,
            Issuer {
                credential_count: (s0.issuers[issuer].credential_count + count) as u64,
                ..s0.issuers[issuer]
            },
        ));
        assert(self@ =~= (RegistryModel {
            issuers: s0.issuers.insert(
                issuer,
                Issuer {
                    credential_count: (s0.issuers[issuer].credential_count + count) as u64,
                    ..s0.issuers[issuer]
                },
            ),
            ..s0
        }));
    }

    /// The number of credentials issued so far by the registered `issuer`.
    fn issued_by(&self, issuer: &Address) -> (count: u64)
        requires
            self.tables_wf(),
            self@.issuers.contains_key(*issuer),
        ensures
            count == self@.issuers[*issuer].credential_count,
    {
        match self.issuers.get(issuer) {
            Some(record) => record.credential_count,
            None => 0,
        }
    }

    /// Issues a credential of `schema_id` to `subject` at time `now`, expiring
    /// `duration_seconds` later (never, when that is `0`), and returns its id: one
    /// more than the number of credentials created before. The issuer must be
    /// registered and active and the schema must exist and be active. The
    /// subject's identity is created or updated, with its reputation.
    pub fn issue_credential(
        &mut self,
        issuer: Address,
        subject: Address,
        schema_id: u32,
        duration_seconds: u64,
        now: u64,
    ) -> (r: Result<u64, ContractError>)
        requires
            old(self).wf(),
        ensures
            final(self).wf(),
            outcome(
                old(self)@,
                final(self)@,
                r,
                issue_credential_op(old(self)@, issuer, subject, schema_id, duration_seconds, now),
            ),
    {
        let ghost s0 = self@;
        let trust_level = match self.check_issuance(&issuer, schema_id) {
            Ok(t) => t,
            Err(e) => return Err(e),
        };
        let expires_at = if duration_seconds > 0 {
            match now.checked_add(duration_seconds) {
                Some(e) => e,
                None => return Err(ContractError::ArithmeticOverflow),
            }
        } else {
            0
        };
        let issued = self.issued_by(&issuer);
        if issued == u64::MAX {
            proof {
                let step = issue_step(s0, issuer, subject, schema_id, expires_at, trust_level, now);
                assert(step is Err ==> step->Err_0 == ContractError::ArithmeticOverflow);
            }
            return Err(ContractError::ArithmeticOverflow);
        }
        let credential_id = match self.issue_one(issuer, subject, schema_id, expires_at, trust_level, now) {
            Ok(id) => id,
            Err(e) => return Err(e),
        };
        self.count_issued(issuer, 1);
        self.events.push(Event::CredentialIssued { credential_id, subject, issuer });
        assert(self@ =~= issue_credential_op(s0, issuer, subject, schema_id, duration_seconds, now)->Ok_0.0);
        proof {
            lemma_consistent_after(
                s0,
                Operation::IssueCredential { issuer, subject, schema_id, duration_seconds, now },
            );
        }
        Ok(credential_id)
    }

    /// Issues a credential of `schema_id` to each of `subjects`, in order, as
    /// [`Self::issue_credential`] would, and returns their ids in the same order.
    /// The checks on the issuer and the schema are made once; a single event
    /// reports the batch. Either every credential is issued or none is.
    pub fn batch_issue_credentials(
        &mut self,
        issuer: Address,
        subjects: &Vec<Address>,
        schema_id: u32,
        duration_seconds: u64,
        now: u64,
    ) -> (r: Result<Vec<u64>, ContractError>)
        requires
            old(self).wf(),
            subjects@.len() <= u32::MAX,
        ensures
            final(self).wf(),
            match batch_issue_credentials_op(
                old(self)@,
                issuer,
                subjects@,
                schema_id,
                duration_seconds,
                now,
            ) {
                Ok((next, ids)) => final(self)@ == next && (r matches Ok(v) && v@ == ids),
                Err(e) => final(self)@ == old(self)@ && r == Err::<Vec<u64>, ContractError>(e),
            },
    {
        let ghost s0 = self@;
        let n = subjects.len();
        if n == 0 {
            return Err(ContractError::EmptySubjects);
        }
        let trust_level = match self.check_issuance(&issuer, schema_id) {
            Ok(t) => t,
            Err(e) => return Err(e),
        };
        let expires_at = if duration_seconds > 0 {
            match now.checked_add(duration_seconds) {
                Some(e) => e,
                None => return Err(ContractError::ArithmeticOverflow),
            }
        } else {
            0
        };
        assert(expires_at == expiry(now, duration_seconds) as u64);
        let issued = self.issued_by(&issuer);
        let overflows = issued > u64::MAX - n as u64;
        let saved_count = self.credential_count;
        let saved_credentials = self.credentials.duplicate();
        let saved_subject_credentials = self.subject_credentials.duplicate_lists();
        let saved_identities = self.identities.duplicate();
        let mut ids: Vec<u64> = Vec::new();
        let mut i: usize = 0;
        #[verifier::loop_isolation(false)]
        while i < n
            invariant
                self.tables_wf(),
                n == subjects@.len(),
                i <= n,
                issue_each(s0, issuer, subjects@.take(i as int), schema_id, expires_at, trust_level, now)
                    == Ok::<(RegistryModel, Seq<u64>), ContractError>((self@, ids@)),
                saved_count == s0.credential_count,
                saved_credentials.wf(),
                saved_credentials@ == s0.credentials,
                saved_subject_credentials.wf(),
                lists_view(saved_subject_credentials@) == s0.subject_credentials,
                saved_identities.wf(),
                saved_identities@ == s0.identities,
            decreases n - i,
        {
            let subject = subjects[i];
            let step = self.issue_one(issuer, subject, schema_id, expires_at, trust_level, now);
            proof {
                assert(subjects@.take(i + 1).drop_last() =~= subjects@.take(i as int));
                assert(subjects@.take(i + 1).last() == subject);
            }
            match step {
                Ok(id) => {
                    ids.push(id);
                },
                Err(e) => {
                    proof {
                        assert(issue_each(s0, issuer, subjects@.take(i + 1), schema_id, expires_at, trust_level, now)
                            == Err::<(RegistryModel, Seq<u64>), ContractError>(e));
                        lemma_issue_each_refused_prefix(
                            s0, issuer, subjects@, i + 1, schema_id, expires_at, trust_level, now);
                    }
                    self.credential_count = saved_count;
                    self.credentials = saved_credentials;
                    self.subject_credentials = saved_subject_credentials;
                    self.identities = saved_identities;
                    proof {
                        lemma_issue_each_preserves(s0, issuer, subjects@.take(i as int), schema_id, expires_at, trust_level, now);
                    }
                    assert(self@ =~= s0);
                    return Err(e);
                },
            }
            i = i + 1;
        }
        proof {
            assert(subjects@.take(n as int) =~= subjects@);
            lemma_issue_each_preserves(s0, issuer, subjects@, schema_id, expires_at, trust_level, now);
        }
        if overflows {
            self.credential_count = saved_count;
            self.credentials = saved_credentials;
            self.subject_credentials = saved_subject_credentials;
            self.identities = saved_identities;
            assert(self@ =~= s0);
            return Err(ContractError::ArithmeticOverflow);
        }
        self.count_issued(issuer, n as u64);
        self.events.push(Event::CredentialsBatchIssued { count: n as u32, issuer, schema_id });
        assert(self@ =~= batch_issue_credentials_op(s0, issuer, subjects@, schema_id, duration_seconds, now)->Ok_0.0);
        proof {
            lemma_consistent_after(
                s0,
                Operation::BatchIssueCredentials {
                    issuer,
                    subjects: subjects@,
                    schema_id,
                    duration_seconds,
                    now,
                },
            );
        }
        Ok(ids)
    }

    /// Records a credential bridged from an EVM attestation, issued by the
    /// authorized bridge operator `operator` to `subject` at time `now`, and
    /// returns its id. An attestation is bridged once, and not after its EVM
    /// expiry. The subject's identity counts the credential; its reputation is
    /// unchanged (`0` for a new identity).
    pub fn bridge_credential(
        &mut self,
        operator: Address,
        subject: Address,
        schema_id: u32,
        bridge_data: BridgeAttestation,
        duration_seconds: u64,
        now: u64,
    ) -> (r: Result<u64, ContractError>)
        requires
            old(self).wf(),
        ensures
            final(self).wf(),
            outcome(
                old(self)@,
                final(self)@,
                r,
                bridge_credential_op(
                    old(self)@,
                    operator,
                    subject,
                    schema_id,
                    bridge_data,
                    duration_seconds,
                    now,
                ),
            ),
    {
        let ghost s0 = self@;
        let authorized = match self.bridge_operators.get(&operator) {
            Some(flag) => *flag,
            None => false,
        };
        if !authorized {
            return Err(ContractError::NotABridgeOperator);
        }
        let key = AttestationKey { evm_chain_id: bridge_data.evm_chain_id, evm_uid: bridge_data.evm_uid };
        let already_bridged = match self.bridged_attestations.get(&key) {
            Some(flag) => *flag,
            None => false,
        };
        if already_bridged {
            return Err(ContractError::AttestationAlreadyBridged);
        }
        if bridge_data.evm_expiry > 0 && bridge_data.evm_expiry <= now {
            return Err(ContractError::EvmAttestationExpired);
        }
        if self.credential_count == u64::MAX {
            return Err(ContractError::ArithmeticOverflow);
        }
        let expires_at = if duration_seconds > 0 {
            match now.checked_add(duration_seconds) {
                Some(e) => e,
                None => return Err(ContractError::ArithmeticOverflow),
            }
        } else {
            0
        };
        let identity = match self.identities.get(&subject) {
            Some(existing) => {
                if existing.credential_count == u32::MAX {
                    return Err(ContractError::ArithmeticOverflow);
                }
                Identity {
                    subject: existing.subject,
                    credential_count: existing.credential_count + 1,
                    reputation_score: existing.reputation_score,
                    created_at: existing.created_at,
                }
            },
            None => Identity { subject, credential_count: 1, reputation_score: 0, created_at: now },
        };
        assert(identity == identity_after_bridge(s0.identities, subject, now));
        let credential_id = self.credential_count + 1;
        let credential = Credential {
            id: credential_id,
            subject,
            issuer: operator,
            schema_id,
            issued_at: now,
            expires_at,
            revoked: false,
        };
        self.credentials.insert(credential_id, credential);
        self.bridge_metadata.insert(credential_id, bridge_data);
        self.credential_count = credential_id;
        self.bridged_attestations.insert(key, true);
        Self::append_id(&mut self.subject_bridge_credentials, subject, credential_id);
        Self::append_id(&mut self.subject_credentials, subject, credential_id);
        self.identities.insert(subject, identity);
        self.events.push(
            Event::CredentialBridged {
                credential_id,
                subject,
                operator,
                evm_chain_id: bridge_data.evm_chain_id,
                evm_uid: bridge_data.evm_uid,
            },
        );
        assert(self@ =~= bridge_credential_op(
            s0,
            operator,
            subject,
            schema_id,
            bridge_data,
            duration_seconds,
            now,
        )->Ok_0.0);
        proof {
            lemma_consistent_after(
                s0,
                Operation::BridgeCredential {
                    operator,
                    subject,
                    schema_id,
                    bridge_data,
                    duration_seconds,
                    now,
                },
            );
        }
        Ok(credential_id)
    }

    /// Revokes credential `credential_id`. Only its issuer may do this, once.
    pub fn revoke_credential(&mut self, issuer: Address, credential_id: u64) -> (r: Result<
        (),
        ContractError,
    >)
        requires
            old(self).wf(),
        ensures
            final(self).wf(),
            outcome(
                old(self)@,
                final(self)@,
                r,
                revoke_credential_op(old(self)@, issuer, credential_id),
            ),
    {
        let ghost s0 = self@;
        let mut credential = match self.credentials.get(&credential_id) {
            Some(c) => *c,
            None => return Err(ContractError::CredentialNotFound),
        };
        if credential.issuer != issuer {
            return Err(ContractError::NotCredentialIssuerForRevoke);
        }
        if credential.revoked {
            return Err(ContractError::CredentialAlreadyRevoked);
        }
        credential.revoked = true;
        self.credentials.insert(credential_id, credential);
        self.events.push(Event::CredentialRevoked { credential_id, issuer });
        assert(self@ =~= revoke_credential_op(s0, issuer, credential_id)->Ok_0.0);
        proof { lemma_consistent_after(s0, Operation::RevokeCredential { issuer, credential_id }); }
        Ok(())
    }

    /// Extends the expiry of credential `credential_id` by `additional_seconds`
    /// (which must be positive). Only its issuer may do this, and only for a
    /// credential that is not revoked and does expire.
    pub fn renew_credential(&mut self, issuer: Address, credential_id: u64, additional_seconds: u64) -> (r:
        Result<(), ContractError>)
        requires
            old(self).wf(),
        ensures
            final(self).wf(),
            outcome(
                old(self)@,
                final(self)@,
                r,
                renew_credential_op(old(self)@, issuer, credential_id, additional_seconds),
            ),
    {
        let ghost s0 = self@;
        if additional_seconds == 0 {
            return Err(ContractError::ZeroRenewal);
        }
        let mut credential = match self.credentials.get(&credential_id) {
            Some(c) => *c,
            None => return Err(ContractError::CredentialNotFound),
        };
        if credential.issuer != issuer {
            return Err(ContractError::NotCredentialIssuerForRenew);
        }
        if credential.revoked {
            return Err(ContractError::RenewRevokedCredential);
        }
        if credential.expires_at == 0 {
            return Err(ContractError::RenewNonExpiringCredential);
        }
        let new_expires_at = match credential.expires_at.checked_add(additional_seconds) {
            Some(e) => e,
            None => return Err(ContractError::ArithmeticOverflow),
        };
        credential.expires_at = new_expires_at;
        self.credentials.insert(credential_id, credential);
        self.events.push(Event::CredentialRenewed { credential_id, new_expires_at });
        assert(self@ =~= renew_credential_op(s0, issuer, credential_id, additional_seconds)->Ok_0.0);
        proof {
            lemma_consistent_after(
                s0,
                Operation::RenewCredential { issuer, credential_id, additional_seconds },
            );
        }
        Ok(())
    }

    /// Whether one of `ids` names a credential of `schema_id` that is live at `now`.
    fn any_live_for_schema(&self, ids: &Vec<u64>, schema_id: u32, now: u64) -> (found: bool)
        requires
            self.tables_wf(),
        ensures
            found == exists|i: int| 0 <= i < ids@.len() && #[trigger] live_for_schema(self@, ids@[i], schema_id, now),
    {
        let n = ids.len();
        let mut i: usize = 0;
        while i < n
            invariant
                self.tables_wf(),
                n == ids@.len(),
                i <= n,
                forall|j: int| 0 <= j < i ==> !#[trigger] live_for_schema(self@, ids@[j], schema_id, now),
            decreases n - i,
        {
            match self.credentials.get(&ids[i]) {
                Some(c) => {
                    if c.schema_id == schema_id && !c.revoked && (c.expires_at == 0 || c.expires_at > now) {
                        assert(live_for_schema(self@, ids@[i as int], schema_id, now));
                        return true;
                    }
                },
                None => {},
            }
            i = i + 1;
        }
        false
    }

    /// Whether `subject` holds a credential of `schema_id` that is neither revoked
    /// nor expired at `now` (a credential with expiry `0` never expires; one
    /// expires once `now` reaches its expiry).
    pub fn has_valid_credential(&self, subject: Address, schema_id: u32, now: u64) -> (valid: bool)
        requires
            self.wf(),
        ensures
            valid == has_valid_credential_spec(self@, subject, schema_id, now),
    {
        match self.subject_credentials.get(&subject) {
            None => false,
            Some(ids) => {
                assert(ids@ == ids_of(self@.subject_credentials, subject));
                self.any_live_for_schema(ids, schema_id, now)
            },
        }
    }

    /// Whether `subject` holds a credential from `issuer` that is neither revoked
    /// nor expired at `now`.
    pub fn has_credential_from_issuer(&self, subject: Address, issuer: Address, now: u64) -> (valid: bool)
        requires
            self.wf(),
        ensures
            valid == has_credential_from_issuer_spec(self@, subject, issuer, now),
    {
        let ids = match self.subject_credentials.get(&subject) {
            None => return false,
            Some(ids) => ids,
        };
        let n = ids.len();
        let mut i: usize = 0;
        while i < n
            invariant
                self.wf(),
                ids@ == ids_of(self@.subject_credentials, subject),
                n == ids@.len(),
                i <= n,
                forall|j: int| 0 <= j < i ==> !#[trigger] live_from_issuer(self@, ids@[j], issuer, now),
            decreases n - i,
        {
            match self.credentials.get(&ids[i]) {
                Some(c) => {
                    if c.issuer == issuer && !c.revoked && (c.expires_at == 0 || c.expires_at > now) {
                        assert(live_from_issuer(self@, ids@[i as int], issuer, now));
                        return true;
                    }
                },
                None => {},
            }
            i = i + 1;
        }
        false
    }

    /// Credential `credential_id`.
    pub fn get_credential(&self, credential_id: u64) -> (r: Result<Credential, ContractError>)
        requires
            self.wf(),
        ensures
            r == (if self@.credentials.contains_key(credential_id) {
                Ok::<Credential, ContractError>(self@.credentials[credential_id])
            } else {
                Err::<Credential, ContractError>(ContractError::CredentialNotFound)
            }),
    {
        match self.credentials.get(&credential_id) {
            Some(c) => Ok(*c),
            None => Err(ContractError::CredentialNotFound),
        }
    }

    /// The identity of `subject`.
    pub fn get_identity(&self, subject: Address) -> (r: Result<Identity, ContractError>)
        requires
            self.wf(),
        ensures
            r == (if self@.identities.contains_key(subject) {
                Ok::<Identity, ContractError>(self@.identities[subject])
            } else {
                Err::<Identity, ContractError>(ContractError::IdentityNotFound)
            }),
    {
        match self.identities.get(&subject) {
            Some(i) => Ok(*i),
            None => Err(ContractError::IdentityNotFound),
        }
    }

    /// The record of issuer `issuer`.
    pub fn get_issuer(&self, issuer: Address) -> (r: Result<&Issuer, ContractError>)
        requires
            self.wf(),
        ensures
            match r {
                Ok(record) => self@.issuers.contains_key(issuer) && *record == self@.issuers[issuer],
                Err(e) => !self@.issuers.contains_key(issuer) && e == ContractError::IssuerNotFound,
            },
    {
        match self.issuers.get(&issuer) {
            Some(record) => Ok(record),
            None => Err(ContractError::IssuerNotFound),
        }
    }

    /// Schema `schema_id`.
    pub fn get_schema(&self, schema_id: u32) -> (r: Result<&Schema, ContractError>)
        requires
            self.wf(),
        ensures
            match r {
                Ok(schema) => self@.schemas.contains_key(schema_id) && *schema == self@.schemas[schema_id],
                Err(e) => !self@.schemas.contains_key(schema_id) && e == ContractError::SchemaNotFound,
            },
    {
        match self.schemas.get(&schema_id) {
            Some(schema) => Ok(schema),
            None => Err(ContractError::SchemaNotFound),
        }
    }

    /// The ids of the credentials of `subject`, in issue order (empty when none).
    pub fn get_subject_credentials(&self, subject: Address) -> (ids: Vec<u64>)
        requires
            self.wf(),
        ensures
            ids@ == ids_of(self@.subject_credentials, subject),
    {
        match self.subject_credentials.get(&subject) {
            Some(ids) => copy_ids(ids),
            None => Vec::new(),
        }
    }

    /// The ids of the bridged credentials of `subject`, in bridge order (empty
    /// when none).
    pub fn get_bridge_credentials(&self, subject: Address) -> (ids: Vec<u64>)
        requires
            self.wf(),
        ensures
            ids@ == ids_of(self@.subject_bridge_credentials, subject),
    {
        match self.subject_bridge_credentials.get(&subject) {
            Some(ids) => copy_ids(ids),
            None => Vec::new(),
        }
    }

    /// The number of credentials created so far.
    pub fn get_credential_count(&self) -> (count: u64)
        ensures
            count == self@.credential_count,
    {
        self.credential_count
    }

    /// The number of schemas registered so far.
    pub fn get_schema_count(&self) -> (count: u32)
        ensures
            count == self@.schema_count,
    {
        self.schema_count
    }

    /// Whether `sub_issuer` is currently authorized under `parent`.
    pub fn is_sub_issuer(&self, parent: Address, sub_issuer: Address) -> (authorized: bool)
        requires
            self.wf(),
        ensures
            authorized == (self@.sub_issuers.contains_key(SubIssuerKey { parent, sub_issuer })
                && self@.sub_issuers[SubIssuerKey { parent, sub_issuer }]),
    {
        match self.sub_issuers.get(&SubIssuerKey { parent, sub_issuer }) {
            Some(flag) => *flag,
            None => false,
        }
    }

    /// The EVM attestation that credential `credential_id` was bridged from, if any.
    pub fn get_bridge_metadata(&self, credential_id: u64) -> (r: Option<BridgeAttestation>)
        requires
            self.wf(),
        ensures
            r == (if self@.bridge_metadata.contains_key(credential_id) {
                Some(self@.bridge_metadata[credential_id])
            } else {
                None
            }),
    {
        match self.bridge_metadata.get(&credential_id) {
            Some(data) => Some(*data),
            None => None,
        }
    }

    /// Records `commitment` (made at time `now`) as the commitment of `subject`
    /// for the existing schema `schema_id`, replacing any earlier one.
    pub fn submit_commitment(&mut self, subject: Address, schema_id: u32, commitment: [u8; 32], now: u64) -> (r:
        Result<(), ContractError>)
        requires
            old(self).wf(),
        ensures
            final(self).wf(),
            outcome(
                old(self)@,
                final(self)@,
                r,
                submit_commitment_op(old(self)@, subject, schema_id, commitment, now),
            ),
    {
        let ghost s0 = self@;
        if !self.schemas.contains_key(&schema_id) {
            return Err(ContractError::SchemaNotFound);
        }
        let record = CredentialCommitment { subject, commitment, schema_id, committed_at: now };
        self.commitments.insert(CommitmentKey { subject, schema_id }, record);
        self.events.push(Event::CommitmentSubmitted { subject, schema_id, commitment });
        assert(self@ =~= submit_commitment_op(s0, subject, schema_id, commitment, now)->Ok_0.0);
        proof {
            lemma_consistent_after(
                s0,
                Operation::SubmitCommitment { subject, schema_id, commitment, now },
            );
        }
        Ok(())
    }

    /// Whether `digest` is the commitment of `subject` for `schema_id` and
    /// credential `credential_id` is the subject's, of `schema_id`, and neither
    /// revoked nor expired at `now`.
    pub fn check_commitment_opening(
        &self,
        subject: Address,
        schema_id: u32,
        credential_id: u64,
        digest: &[u8; 32],
        now: u64,
    ) -> (opens: bool)
        requires
            self.wf(),
        ensures
            opens == commitment_opens(self@, subject, schema_id, credential_id, digest@, now),
    {
        let record = match self.commitments.get(&CommitmentKey { subject, schema_id }) {
            Some(record) => record,
            None => return false,
        };
        if !crate::bytes::bytes_equal(digest, &record.commitment) {
            return false;
        }
        let credential = match self.credentials.get(&credential_id) {
            Some(c) => c,
            None => return false,
        };
        if credential.subject != subject || credential.schema_id != schema_id {
            return false;
        }
        if credential.revoked {
            return false;
        }
        credential.expires_at == 0 || credential.expires_at > now
    }

    /// Whether the opening (`credential_id`, `blinding_factor`) matches the
    /// commitment of `subject` for `schema_id` (SHA-256 of the id's 8
    /// little-endian bytes followed by the blinding factor), and the credential is
    /// the subject's, of `schema_id`, and neither revoked nor expired at `now`.
    pub fn verify_commitment(
        &self,
        env: &Env,
        subject: Address,
        schema_id: u32,
        credential_id: u64,
        blinding_factor: &[u8; 32],
        now: u64,
    ) -> (opens: bool)
        requires
            self.wf(),
        ensures
            opens == commitment_opens(
                self@,
                subject,
                schema_id,
                credential_id,
                sha256_digest(commitment_preimage_spec(credential_id, blinding_factor@)),
                now,
            ),
    {
        if !self.commitments.contains_key(&CommitmentKey { subject, schema_id }) {
            return false;
        }
        let expected = compute_commitment(env, credential_id, blinding_factor);
        self.check_commitment_opening(subject, schema_id, credential_id, &expected, now)
    }

    /// Whether `subject` has a commitment for `schema_id` and holds a credential of
    /// that schema that is neither revoked nor expired at `now`. This does not
    /// tie the commitment to that credential.
    pub fn has_valid_commitment(&self, subject: Address, schema_id: u32, now: u64) -> (valid: bool)
        requires
            self.wf(),
        ensures
            valid == has_valid_commitment_spec(self@, subject, schema_id, now),
    {
        if !self.commitments.contains_key(&CommitmentKey { subject, schema_id }) {
            return false;
        }
        self.has_valid_credential(subject, schema_id, now)
    }
}

} // verus!
