//! Properties of the registry that span operations, proved over the model.

use vstd::prelude::*;

use crate::model::{
    authorize_sub_issuer_op, commitment_opens, has_credential_from_issuer_spec,
    has_valid_commitment_spec, has_valid_credential_spec, is_live, issuance_refusal,
    live_for_schema, live_from_issuer, batch_issue_credentials_op, bridge_credential_op,
    deactivate_issuer_op, deactivate_schema_op, empty_registry, expiry,
    ids_of, initialize_op, issue_credential_op, issue_each, issue_step,
    lemma_issue_each_preserves, register_bridge_operator_op, register_issuer_op,
    register_schema_op, renew_credential_op, reputation, revoke_bridge_operator_op,
    revoke_credential_op, revoke_sub_issuer_op, submit_commitment_op, Outcome, RegistryModel,
};
use crate::table::{CommitmentKey, SubIssuerKey};
use crate::types::{
    Address, BridgeAttestation, ContractError, Credential, CredentialCommitment, Identity, Issuer,
};

verus! {

/// What an identity record keyed by `subject` always satisfies.
pub open spec fn identity_sound(identity: Identity, subject: Address) -> bool {
    &&& identity.subject == subject
    &&& identity.reputation_score <= 1000
    &&& identity.reputation_score <= identity.credential_count * 10 + 10
}

/// Credential `id`, listed for `subject`, exists and belongs to `subject`.
pub open spec fn listed_for(s: RegistryModel, subject: Address, id: u64) -> bool {
    s.credentials.contains_key(id) && s.credentials[id].subject == subject
}

/// The consistency of the registry's records, which every operation keeps:
/// credentials and schemas are numbered from 1 up to their counters, records are
/// filed under their own keys, trust levels stay in `1..=100`, reputations stay
/// within their bounds, each subject's list names exactly the subject's
/// credentials, each once, a subject has an identity exactly when its list is
/// non-empty and the identity counts the list, and bridge metadata belongs to
/// existing credentials.
pub open spec fn registry_invariant(s: RegistryModel) -> bool {
    &&& s.admin is None ==> s.credential_count == 0 && s.schema_count == 0 && s.issuers.dom()
        == Set::<Address>::empty() && s.bridge_operators.dom() == Set::<Address>::empty()
    &&& forall|id: u64| #[trigger] s.credentials.contains_key(id) <==> 1 <= id <= s.credential_count
    &&& forall|id: u64| #[trigger] s.credentials.contains_key(id) ==> s.credentials[id].id == id
    &&& forall|id: u32| #[trigger] s.schemas.contains_key(id) <==> 1 <= id <= s.schema_count
    &&& forall|id: u32| #[trigger] s.schemas.contains_key(id) ==> s.schemas[id].id == id
    &&& forall|a: Address| #[trigger]
        s.issuers.contains_key(a) ==> s.issuers[a].address == a && 1 <= s.issuers[a].trust_level
            <= 100
    &&& forall|a: Address| #[trigger]
        s.identities.contains_key(a) ==> identity_sound(s.identities[a], a)
    &&& forall|a: Address, i: int|
        s.subject_credentials.contains_key(a) && 0 <= i < s.subject_credentials[a].len()
            ==> listed_for(s, a, #[trigger] s.subject_credentials[a][i])
    &&& forall|id: u64| #[trigger]
        s.credentials.contains_key(id) ==> ids_of(s.subject_credentials, s.credentials[id].subject).contains(id)
    &&& forall|a: Address, i: int, j: int|
        s.subject_credentials.contains_key(a) && 0 <= i < j < s.subject_credentials[a].len()
            ==> #[trigger] s.subject_credentials[a][i] != #[trigger] s.subject_credentials[a][j]
    &&& forall|a: Address|
        #![trigger s.identities.contains_key(a)]
        #![trigger ids_of(s.subject_credentials, a)]
        s.identities.contains_key(a) <==> ids_of(s.subject_credentials, a).len() > 0
    &&& forall|a: Address| #[trigger]
        s.identities.contains_key(a) ==> s.identities[a].credential_count == ids_of(
            s.subject_credentials,
            a,
        ).len()
    &&& forall|id: u64| #[trigger] s.bridge_metadata.contains_key(id) ==> s.credentials.contains_key(id)
}

/// A registry that has never been used is consistent.
pub proof fn law_empty_registry_consistent()
    ensures
        registry_invariant(empty_registry()),
{
    let s = empty_registry();
    assert(s.issuers.dom() =~= Set::<Address>::empty());
    assert(s.bridge_operators.dom() =~= Set::<Address>::empty());
}

proof fn lemma_push_keeps(ids: Seq<u64>, id: u64, x: u64)
    requires
        ids.contains(x),
    ensures
        ids.push(id).contains(x),
{
    let i = choose|i: int| 0 <= i < ids.len() && ids[i] == x;
    assert(ids.push(id)[i] == x);
}

proof fn lemma_push_has(ids: Seq<u64>, id: u64)
    ensures
        ids.push(id).contains(id),
{
    assert(ids.push(id)[ids.len() as int] == id);
}

/// Creating one credential keeps the registry consistent.
proof fn lemma_issue_step_consistent(
    s: RegistryModel,
    issuer: Address,
    subject: Address,
    schema_id: u32,
    expires_at: u64,
    trust_level: u32,
    now: u64,
)
    requires
        registry_invariant(s),
        s.admin is Some,
        trust_level <= 100,
        issue_step(s, issuer, subject, schema_id, expires_at, trust_level, now) is Ok,
    ensures
        ({
            let (next, id) = issue_step(s, issuer, subject, schema_id, expires_at, trust_level, now)->Ok_0;
            &&& registry_invariant(next)
            &&& next.admin is Some
            &&& id == s.credential_count + 1
            &&& next.credential_count == id
            &&& forall|c: u64| #[trigger] s.credentials.contains_key(c) ==> next.credentials.contains_key(c)
                && next.credentials[c] == s.credentials[c]
        }),
{
    let (next, id) = issue_step(s, issuer, subject, schema_id, expires_at, trust_level, now)->Ok_0;
    assert(!s.credentials.contains_key(id));
    let old_ids = ids_of(s.subject_credentials, subject);
    assert forall|a: Address, i: int|
        next.subject_credentials.contains_key(a) && 0 <= i < next.subject_credentials[a].len()
            implies listed_for(next, a, #[trigger] next.subject_credentials[a][i]) by {
        if a == subject {
            if i < old_ids.len() {
                assert(next.subject_credentials[a][i] == old_ids[i]);
                assert(s.subject_credentials.contains_key(a));
                assert(listed_for(s, a, s.subject_credentials[a][i]));
            }
        } else {
            assert(listed_for(s, a, s.subject_credentials[a][i]));
        }
    }
    assert forall|c: u64| #[trigger]
        next.credentials.contains_key(c) implies ids_of(next.subject_credentials, next.credentials[c].subject).contains(c) by {
        if c == id {
            lemma_push_has(old_ids, id);
        } else {
            let owner = s.credentials[c].subject;
            assert(ids_of(s.subject_credentials, owner).contains(c));
            if owner == subject {
                lemma_push_keeps(old_ids, id, c);
            }
        }
    }
    assert forall|a: Address| #[trigger]
        next.identities.contains_key(a) implies identity_sound(next.identities[a], a) by {
        if a == subject {
            if s.identities.contains_key(subject) {
                let count = s.identities[subject].credential_count + 1;
                assert(0 <= reputation(count, trust_level as int) <= 1000);
                assert(reputation(count, trust_level as int) <= count * 10 + 10);
            }
        }
    }
}

/// Creating credentials for a list of subjects keeps the registry consistent.
proof fn lemma_issue_each_consistent(
    s: RegistryModel,
    issuer: Address,
    subjects: Seq<Address>,
    schema_id: u32,
    expires_at: u64,
    trust_level: u32,
    now: u64,
)
    requires
        registry_invariant(s),
        s.admin is Some,
        trust_level <= 100,
        issue_each(s, issuer, subjects, schema_id, expires_at, trust_level, now) is Ok,
    ensures
        ({
            let (next, ids) = issue_each(s, issuer, subjects, schema_id, expires_at, trust_level, now)->Ok_0;
            &&& registry_invariant(next)
            &&& next.admin is Some
            &&& next.credential_count == s.credential_count + subjects.len()
            &&& ids.len() == subjects.len()
            &&& forall|i: int| 0 <= i < ids.len() ==> #[trigger] ids[i] == s.credential_count + 1 + i
            &&& forall|i: int| 0 <= i < ids.len() ==> #[trigger] next.credentials.contains_key(ids[i])
                && next.credentials[ids[i]] == (Credential {
                    id: ids[i],
                    subject: subjects[i],
                    issuer,
                    schema_id,
                    issued_at: now,
                    expires_at,
                    revoked: false,
                })
            &&& forall|c: u64| #[trigger] s.credentials.contains_key(c) ==> next.credentials.contains_key(c)
                && next.credentials[c] == s.credentials[c]
        }),
    decreases subjects.len(),
{
    if subjects.len() > 0 {
        let prefix = subjects.drop_last();
        lemma_issue_each_consistent(s, issuer, prefix, schema_id, expires_at, trust_level, now);
        let (s1, ids1) = issue_each(s, issuer, prefix, schema_id, expires_at, trust_level, now)->Ok_0;
        lemma_issue_step_consistent(s1, issuer, subjects.last(), schema_id, expires_at, trust_level, now);
        let (next, ids) = issue_each(s, issuer, subjects, schema_id, expires_at, trust_level, now)->Ok_0;
        assert forall|i: int| 0 <= i < ids.len() implies #[trigger] next.credentials.contains_key(ids[i])
            && next.credentials[ids[i]] == (Credential {
                id: ids[i],
                subject: subjects[i],
                issuer,
                schema_id,
                issued_at: now,
                expires_at,
                revoked: false,
            }) by {
            if i < ids1.len() {
                assert(ids[i] == ids1[i]);
                assert(subjects[i] == prefix[i]);
                assert(s1.credentials.contains_key(ids1[i]));
            }
        }
    }
}


/// A request to the registry.
pub enum Operation {
    Initialize { admin: Address },
    RegisterIssuer { admin: Address, issuer: Address, name: Vec<u8>, trust_level: u32 },
    DeactivateIssuer { admin: Address, issuer: Address },
    RegisterBridgeOperator { admin: Address, operator: Address },
    RevokeBridgeOperator { admin: Address, operator: Address },
    AuthorizeSubIssuer { parent: Address, sub_issuer: Address },
    RevokeSubIssuer { parent: Address, sub_issuer: Address },
    RegisterSchema { issuer: Address, name: Vec<u8>, description: Vec<u8> },
    DeactivateSchema { issuer: Address, schema_id: u32 },
    IssueCredential {
        issuer: Address,
        subject: Address,
        schema_id: u32,
        duration_seconds: u64,
        now: u64,
    },
    BatchIssueCredentials {
        issuer: Address,
        subjects: Seq<Address>,
        schema_id: u32,
        duration_seconds: u64,
        now: u64,
    },
    BridgeCredential {
        operator: Address,
        subject: Address,
        schema_id: u32,
        bridge_data: BridgeAttestation,
        duration_seconds: u64,
        now: u64,
    },
    RevokeCredential { issuer: Address, credential_id: u64 },
    RenewCredential { issuer: Address, credential_id: u64, additional_seconds: u64 },
    SubmitCommitment { subject: Address, schema_id: u32, commitment: [u8; 32], now: u64 },
}

/// The state that an outcome leads to, if the request was accepted.
pub open spec fn next_state<T>(o: Outcome<T>) -> Option<RegistryModel> {
    match o {
        Ok((next, _)) => Some(next),
        Err(_) => None,
    }
}

/// The state after `op`, or `None` when the registry refuses it.
pub open spec fn apply(s: RegistryModel, op: Operation) -> Option<RegistryModel> {
    match op {
        Operation::Initialize { admin } => next_state(initialize_op(s, admin)),
        Operation::RegisterIssuer { admin, issuer, name, trust_level } => next_state(
            register_issuer_op(s, admin, issuer, name, trust_level),
        ),
        Operation::DeactivateIssuer { admin, issuer } => next_state(
            deactivate_issuer_op(s, admin, issuer),
        ),
        Operation::RegisterBridgeOperator { admin, operator } => next_state(
            register_bridge_operator_op(s, admin, operator),
        ),
        Operation::RevokeBridgeOperator { admin, operator } => next_state(
            revoke_bridge_operator_op(s, admin, operator),
        ),
        Operation::AuthorizeSubIssuer { parent, sub_issuer } => next_state(
            authorize_sub_issuer_op(s, parent, sub_issuer),
        ),
        Operation::RevokeSubIssuer { parent, sub_issuer } => next_state(
            revoke_sub_issuer_op(s, parent, sub_issuer),
        ),
        Operation::RegisterSchema { issuer, name, description } => next_state(
            register_schema_op(s, issuer, name, description),
        ),
        Operation::DeactivateSchema { issuer, schema_id } => next_state(
            deactivate_schema_op(s, issuer, schema_id),
        ),
        Operation::IssueCredential { issuer, subject, schema_id, duration_seconds, now } =>
            next_state(issue_credential_op(s, issuer, subject, schema_id, duration_seconds, now)),
        Operation::BatchIssueCredentials { issuer, subjects, schema_id, duration_seconds, now } =>
            next_state(
            batch_issue_credentials_op(s, issuer, subjects, schema_id, duration_seconds, now),
        ),
        Operation::BridgeCredential {
            operator,
            subject,
            schema_id,
            bridge_data,
            duration_seconds,
            now,
        } => next_state(
            bridge_credential_op(s, operator, subject, schema_id, bridge_data, duration_seconds, now),
        ),
        Operation::RevokeCredential { issuer, credential_id } => next_state(
            revoke_credential_op(s, issuer, credential_id),
        ),
        Operation::RenewCredential { issuer, credential_id, additional_seconds } => next_state(
            renew_credential_op(s, issuer, credential_id, additional_seconds),
        ),
        Operation::SubmitCommitment { subject, schema_id, commitment, now } => next_state(
            submit_commitment_op(s, subject, schema_id, commitment, now),
        ),
    }
}

/// Every accepted request keeps the registry consistent.
pub proof fn law_consistency_preserved(s: RegistryModel, op: Operation)
    requires
        registry_invariant(s),
        apply(s, op) is Some,
    ensures
        registry_invariant(apply(s, op)->Some_0),
{
    let next = apply(s, op)->Some_0;
    match op {
        Operation::IssueCredential { issuer, subject, schema_id, duration_seconds, now } => {
            let trust = s.issuers[issuer].trust_level;
            lemma_issue_step_consistent(s, issuer, subject, schema_id, expiry(now, duration_seconds) as u64, trust, now);
        },
        Operation::BatchIssueCredentials { issuer, subjects, schema_id, duration_seconds, now } => {
            let trust = s.issuers[issuer].trust_level;
            lemma_issue_each_consistent(s, issuer, subjects, schema_id, expiry(now, duration_seconds) as u64, trust, now);
            lemma_issue_each_preserves(s, issuer, subjects, schema_id, expiry(now, duration_seconds) as u64, trust, now);
        },
        Operation::BridgeCredential { operator, subject, schema_id, bridge_data, duration_seconds, now } => {
            lemma_bridge_consistent(s, operator, subject, schema_id, bridge_data, duration_seconds, now);
        },
        Operation::Initialize { admin } => {
            assert(s.credentials.dom() =~= Set::<u64>::empty()) by {
                assert forall|c: u64| !#[trigger] s.credentials.contains_key(c) by {}
            }
        },
        _ => {},
    }
}

proof fn lemma_bridge_consistent(
    s: RegistryModel,
    operator: Address,
    subject: Address,
    schema_id: u32,
    bridge_data: BridgeAttestation,
    duration_seconds: u64,
    now: u64,
)
    requires
        registry_invariant(s),
        bridge_credential_op(s, operator, subject, schema_id, bridge_data, duration_seconds, now) is Ok,
    ensures
        ({
            let (next, id) = bridge_credential_op(s, operator, subject, schema_id, bridge_data, duration_seconds, now)->Ok_0;
            &&& registry_invariant(next)
            &&& id == s.credential_count + 1
            &&& forall|c: u64| #[trigger] s.credentials.contains_key(c) ==> next.credentials.contains_key(c)
                && next.credentials[c] == s.credentials[c]
        }),
{
    let (next, id) = bridge_credential_op(s, operator, subject, schema_id, bridge_data, duration_seconds, now)->Ok_0;
    assert(s.bridge_operators.contains_key(operator));
    assert(!s.credentials.contains_key(id));
    let old_ids = ids_of(s.subject_credentials, subject);
    assert forall|a: Address, i: int|
        next.subject_credentials.contains_key(a) && 0 <= i < next.subject_credentials[a].len()
            implies listed_for(next, a, #[trigger] next.subject_credentials[a][i]) by {
        if a == subject {
            if i < old_ids.len() {
                assert(next.subject_credentials[a][i] == old_ids[i]);
                assert(s.subject_credentials.contains_key(a));
                assert(listed_for(s, a, s.subject_credentials[a][i]));
            }
        } else {
            assert(listed_for(s, a, s.subject_credentials[a][i]));
        }
    }
    assert forall|c: u64| #[trigger]
        next.credentials.contains_key(c) implies ids_of(next.subject_credentials, next.credentials[c].subject).contains(c) by {
        if c == id {
            lemma_push_has(old_ids, id);
        } else {
            let owner = s.credentials[c].subject;
            assert(ids_of(s.subject_credentials, owner).contains(c));
            if owner == subject {
                lemma_push_keeps(old_ids, id, c);
            }
        }
    }
}


/// Credentials are never deleted and, but for their expiry (which only renewal
/// moves) and their revocation flag, never change; revocation is permanent.
pub proof fn law_credentials_permanent(s: RegistryModel, op: Operation, credential_id: u64)
    requires
        registry_invariant(s),
        apply(s, op) is Some,
        s.credentials.contains_key(credential_id),
    ensures
        ({
            let next = apply(s, op)->Some_0;
            let before = s.credentials[credential_id];
            let after = next.credentials[credential_id];
            &&& next.credentials.contains_key(credential_id)
            &&& after.id == before.id
            &&& after.subject == before.subject
            &&& after.issuer == before.issuer
            &&& after.schema_id == before.schema_id
            &&& after.issued_at == before.issued_at
            &&& before.revoked ==> after.revoked
            &&& !(op is RenewCredential) ==> after.expires_at == before.expires_at
        }),
{
    match op {
        Operation::IssueCredential { issuer, subject, schema_id, duration_seconds, now } => {
            let trust = s.issuers[issuer].trust_level;
            lemma_issue_step_consistent(s, issuer, subject, schema_id, expiry(now, duration_seconds) as u64, trust, now);
        },
        Operation::BatchIssueCredentials { issuer, subjects, schema_id, duration_seconds, now } => {
            let trust = s.issuers[issuer].trust_level;
            lemma_issue_each_consistent(s, issuer, subjects, schema_id, expiry(now, duration_seconds) as u64, trust, now);
        },
        Operation::BridgeCredential { operator, subject, schema_id, bridge_data, duration_seconds, now } => {
            lemma_bridge_consistent(s, operator, subject, schema_id, bridge_data, duration_seconds, now);
        },
        _ => {},
    }
}

/// Schemas are never deleted; their id, name, description and owner never
/// change, and a deactivated schema stays inactive.
pub proof fn law_schemas_permanent(s: RegistryModel, op: Operation, schema_id: u32)
    requires
        registry_invariant(s),
        apply(s, op) is Some,
        s.schemas.contains_key(schema_id),
    ensures
        ({
            let next = apply(s, op)->Some_0;
            let before = s.schemas[schema_id];
            let after = next.schemas[schema_id];
            &&& next.schemas.contains_key(schema_id)
            &&& after.id == before.id
            &&& after.name == before.name
            &&& after.description == before.description
            &&& after.issuer == before.issuer
            &&& !before.active ==> !after.active
        }),
{
    match op {
        Operation::BatchIssueCredentials { issuer, subjects, schema_id: sid, duration_seconds, now } => {
            let trust = s.issuers[issuer].trust_level;
            lemma_issue_each_preserves(s, issuer, subjects, sid, expiry(now, duration_seconds) as u64, trust, now);
        },
        _ => {},
    }
}

/// Every accepted request but initialization publishes exactly one event, after
/// those published before; initialization publishes none.
pub proof fn law_one_event_per_request(s: RegistryModel, op: Operation)
    requires
        apply(s, op) is Some,
    ensures
        ({
            let next = apply(s, op)->Some_0;
            &&& op is Initialize ==> next.events == s.events
            &&& !(op is Initialize) ==> next.events.len() == s.events.len() + 1
                && next.events.drop_last() == s.events
        }),
{
    match op {
        Operation::BatchIssueCredentials { issuer, subjects, schema_id, duration_seconds, now } => {
            let trust = s.issuers[issuer].trust_level;
            lemma_issue_each_preserves(s, issuer, subjects, schema_id, expiry(now, duration_seconds) as u64, trust, now);
        },
        _ => {},
    }
    let next = apply(s, op)->Some_0;
    if !(op is Initialize) {
        assert(next.events.drop_last() =~= s.events);
    }
}

/// Issuing a credential gives it the next id, files it under the subject, and
/// makes the subject hold a valid credential of the schema, and one from the
/// issuer, at the time of issue.
pub proof fn law_issued_credential_is_valid(
    s: RegistryModel,
    issuer: Address,
    subject: Address,
    schema_id: u32,
    duration_seconds: u64,
    now: u64,
)
    requires
        issue_credential_op(s, issuer, subject, schema_id, duration_seconds, now) is Ok,
    ensures
        ({
            let (next, id) = issue_credential_op(s, issuer, subject, schema_id, duration_seconds, now)->Ok_0;
            &&& id == s.credential_count + 1
            &&& next.credential_count == id
            &&& next.credentials[id] == (Credential {
                id,
                subject,
                issuer,
                schema_id,
                issued_at: now,
                expires_at: expiry(now, duration_seconds) as u64,
                revoked: false,
            })
            &&& ids_of(next.subject_credentials, subject) == ids_of(s.subject_credentials, subject).push(id)
            &&& has_valid_credential_spec(next, subject, schema_id, now)
            &&& has_credential_from_issuer_spec(next, subject, issuer, now)
        }),
{
    let (next, id) = issue_credential_op(s, issuer, subject, schema_id, duration_seconds, now)->Ok_0;
    let ids = ids_of(next.subject_credentials, subject);
    let last = ids.len() - 1;
    assert(ids[last] == id);
    assert(live_for_schema(next, ids[last], schema_id, now));
    assert(live_from_issuer(next, ids[last], issuer, now));
}

/// A batch issues one credential per subject, with consecutive ids in the order
/// of the subjects, each filed as that subject's, of the schema, from the issuer.
pub proof fn law_batch_issues_in_order(
    s: RegistryModel,
    issuer: Address,
    subjects: Seq<Address>,
    schema_id: u32,
    duration_seconds: u64,
    now: u64,
)
    requires
        registry_invariant(s),
        batch_issue_credentials_op(s, issuer, subjects, schema_id, duration_seconds, now) is Ok,
    ensures
        ({
            let (next, ids) = batch_issue_credentials_op(s, issuer, subjects, schema_id, duration_seconds, now)->Ok_0;
            &&& ids.len() == subjects.len()
            &&& next.credential_count == s.credential_count + subjects.len()
            &&& forall|i: int| 0 <= i < ids.len() ==> #[trigger] ids[i] == s.credential_count + 1 + i
            &&& forall|i: int| 0 <= i < ids.len() ==> #[trigger] next.credentials[ids[i]] == (Credential {
                id: ids[i],
                subject: subjects[i],
                issuer,
                schema_id,
                issued_at: now,
                expires_at: expiry(now, duration_seconds) as u64,
                revoked: false,
            })
            &&& next.issuers[issuer].credential_count == s.issuers[issuer].credential_count + subjects.len()
        }),
{
    let trust = s.issuers[issuer].trust_level;
    assert(s.admin is Some);
    let expires_at = expiry(now, duration_seconds) as u64;
    lemma_issue_each_consistent(s, issuer, subjects, schema_id, expires_at, trust, now);
    lemma_issue_each_preserves(s, issuer, subjects, schema_id, expires_at, trust, now);
    let (s1, ids1) = issue_each(s, issuer, subjects, schema_id, expires_at, trust, now)->Ok_0;
    let (next, ids) = batch_issue_credentials_op(s, issuer, subjects, schema_id, duration_seconds, now)->Ok_0;
    assert(ids == ids1);
    assert(next.credentials == s1.credentials);
    assert forall|i: int| 0 <= i < ids.len() implies #[trigger] next.credentials[ids[i]] == (Credential {
        id: ids[i],
        subject: subjects[i],
        issuer,
        schema_id,
        issued_at: now,
        expires_at,
        revoked: false,
    }) by {
        assert(s1.credentials.contains_key(ids1[i]));
    }
}

/// A revoked credential is never again valid, never again counts as a
/// credential from any issuer, nor opens a commitment.
pub proof fn law_revoked_credential_invalid(s: RegistryModel, issuer: Address, credential_id: u64)
    requires
        revoke_credential_op(s, issuer, credential_id) is Ok,
    ensures
        ({
            let next = revoke_credential_op(s, issuer, credential_id)->Ok_0.0;
            &&& next.credentials[credential_id].revoked
            &&& forall|schema_id: u32, now: u64| !#[trigger] live_for_schema(next, credential_id, schema_id, now)
            &&& forall|from: Address, now: u64| !#[trigger] live_from_issuer(next, credential_id, from, now)
            &&& forall|subject: Address, schema_id: u32, digest: Seq<u8>, now: u64|
                !#[trigger] commitment_opens(next, subject, schema_id, credential_id, digest, now)
        }),
{
}

/// Renewal moves the expiry by the added seconds, so the credential is valid
/// again at every time before its new expiry.
pub proof fn law_renewal_extends_validity(
    s: RegistryModel,
    issuer: Address,
    credential_id: u64,
    additional_seconds: u64,
)
    requires
        renew_credential_op(s, issuer, credential_id, additional_seconds) is Ok,
    ensures
        ({
            let next = renew_credential_op(s, issuer, credential_id, additional_seconds)->Ok_0.0;
            &&& next.credentials[credential_id].expires_at == s.credentials[credential_id].expires_at
                + additional_seconds
            &&& forall|now: u64| now < next.credentials[credential_id].expires_at ==> #[trigger] is_live(
                next.credentials[credential_id],
                now,
            )
        }),
{
}

/// The reputation formula is capped at 1000 and grows with the number of
/// credentials.
pub proof fn law_reputation_capped_and_monotone(fewer: int, more: int, trust_level: int)
    requires
        0 <= fewer <= more,
        0 <= trust_level,
    ensures
        0 <= reputation(fewer, trust_level) <= reputation(more, trust_level) <= 1000,
{
}

/// Issuing a credential never lowers the subject's reputation.
pub proof fn law_issuing_never_lowers_reputation(
    s: RegistryModel,
    issuer: Address,
    subject: Address,
    schema_id: u32,
    duration_seconds: u64,
    now: u64,
)
    requires
        registry_invariant(s),
        s.identities.contains_key(subject),
        issue_credential_op(s, issuer, subject, schema_id, duration_seconds, now) is Ok,
    ensures
        issue_credential_op(s, issuer, subject, schema_id, duration_seconds, now)->Ok_0.0.identities[subject].reputation_score
            >= s.identities[subject].reputation_score,
{
    let count = s.identities[subject].credential_count + 1;
    let trust = s.issuers[issuer].trust_level;
    assert(identity_sound(s.identities[subject], subject));
    assert(reputation(count, trust as int) >= s.identities[subject].reputation_score);
}

/// A subject holds a valid credential of a schema (or from an issuer) exactly when
/// some credential belonging to the subject is of that schema (from that issuer)
/// and neither revoked nor expired.
pub proof fn law_validity_is_ownership(s: RegistryModel, subject: Address, schema_id: u32, issuer: Address, now: u64)
    requires
        registry_invariant(s),
    ensures
        has_valid_credential_spec(s, subject, schema_id, now) <==> exists|c: u64|
            s.credentials.contains_key(c) && s.credentials[c].subject == subject
                && #[trigger] live_for_schema(s, c, schema_id, now),
        has_credential_from_issuer_spec(s, subject, issuer, now) <==> exists|c: u64|
            s.credentials.contains_key(c) && s.credentials[c].subject == subject
                && #[trigger] live_from_issuer(s, c, issuer, now),
{
    let ids = ids_of(s.subject_credentials, subject);
    if has_valid_credential_spec(s, subject, schema_id, now) {
        let i = choose|i: int| 0 <= i < ids.len() && #[trigger] live_for_schema(s, ids[i], schema_id, now);
        assert(s.subject_credentials.contains_key(subject));
        assert(listed_for(s, subject, s.subject_credentials[subject][i]));
    }
    if exists|c: u64| s.credentials.contains_key(c) && s.credentials[c].subject == subject
        && #[trigger] live_for_schema(s, c, schema_id, now) {
        let c = choose|c: u64| s.credentials.contains_key(c) && s.credentials[c].subject == subject
            && #[trigger] live_for_schema(s, c, schema_id, now);
        assert(ids.contains(c));
        let i = choose|i: int| 0 <= i < ids.len() && ids[i] == c;
        assert(live_for_schema(s, ids[i], schema_id, now));
    }
    if has_credential_from_issuer_spec(s, subject, issuer, now) {
        let i = choose|i: int| 0 <= i < ids.len() && #[trigger] live_from_issuer(s, ids[i], issuer, now);
        assert(s.subject_credentials.contains_key(subject));
        assert(listed_for(s, subject, s.subject_credentials[subject][i]));
    }
    if exists|c: u64| s.credentials.contains_key(c) && s.credentials[c].subject == subject
        && #[trigger] live_from_issuer(s, c, issuer, now) {
        let c = choose|c: u64| s.credentials.contains_key(c) && s.credentials[c].subject == subject
            && #[trigger] live_from_issuer(s, c, issuer, now);
        assert(ids.contains(c));
        let i = choose|i: int| 0 <= i < ids.len() && ids[i] == c;
        assert(live_from_issuer(s, ids[i], issuer, now));
    }
}

/// A commitment that opens to a credential implies the weaker public check: the
/// subject has a commitment and a valid credential of the schema.
pub proof fn law_opened_commitment_is_valid_commitment(
    s: RegistryModel,
    subject: Address,
    schema_id: u32,
    credential_id: u64,
    digest: Seq<u8>,
    now: u64,
)
    requires
        registry_invariant(s),
        commitment_opens(s, subject, schema_id, credential_id, digest, now),
    ensures
        has_valid_commitment_spec(s, subject, schema_id, now),
{
    law_validity_is_ownership(s, subject, schema_id, subject, now);
    assert(live_for_schema(s, credential_id, schema_id, now));
}

/// A submitted commitment opens to any valid credential of the subject and schema
/// with the submitted digest.
pub proof fn law_submitted_commitment_opens(
    s: RegistryModel,
    subject: Address,
    schema_id: u32,
    commitment: [u8; 32],
    committed_at: u64,
    credential_id: u64,
    now: u64,
)
    requires
        submit_commitment_op(s, subject, schema_id, commitment, committed_at) is Ok,
        s.credentials.contains_key(credential_id),
        s.credentials[credential_id].subject == subject,
        s.credentials[credential_id].schema_id == schema_id,
        is_live(s.credentials[credential_id], now),
    ensures
        commitment_opens(
            submit_commitment_op(s, subject, schema_id, commitment, committed_at)->Ok_0.0,
            subject,
            schema_id,
            credential_id,
            commitment@,
            now,
        ),
{
}

/// Authorizing a sub-issuer makes it authorized; revoking it makes it not.
pub proof fn law_sub_issuer_authorization(s: RegistryModel, parent: Address, sub_issuer: Address)
    ensures
        authorize_sub_issuer_op(s, parent, sub_issuer) matches Ok((next, _)) ==> next.sub_issuers.contains_key(
            SubIssuerKey { parent, sub_issuer },
        ) && next.sub_issuers[SubIssuerKey { parent, sub_issuer }],
        revoke_sub_issuer_op(s, parent, sub_issuer) matches Ok((next, _)) ==> !next.sub_issuers[SubIssuerKey {
            parent,
            sub_issuer,
        }],
{
}

/// Deactivating a schema refuses new credentials of it but leaves every existing
/// credential exactly as valid as before.
pub proof fn law_schema_deactivation_keeps_credentials(
    s: RegistryModel,
    owner: Address,
    schema_id: u32,
    issuer: Address,
    subject: Address,
    any_schema: u32,
    now: u64,
)
    requires
        deactivate_schema_op(s, owner, schema_id) is Ok,
    ensures
        ({
            let next = deactivate_schema_op(s, owner, schema_id)->Ok_0.0;
            &&& issuance_refusal(next, issuer, schema_id) is Some
            &&& has_valid_credential_spec(next, subject, any_schema, now) == has_valid_credential_spec(
                s,
                subject,
                any_schema,
                now,
            )
            &&& has_credential_from_issuer_spec(next, subject, issuer, now)
                == has_credential_from_issuer_spec(s, subject, issuer, now)
        }),
{
    let next = deactivate_schema_op(s, owner, schema_id)->Ok_0.0;
    assert(next.schemas.contains_key(schema_id));
    assert(!next.schemas[schema_id].active);
    assert(next.credentials == s.credentials);
    assert(next.subject_credentials == s.subject_credentials);
    let ids = ids_of(s.subject_credentials, subject);
    assert(ids_of(next.subject_credentials, subject) == ids);
    if has_valid_credential_spec(s, subject, any_schema, now) {
        let i = choose|i: int| 0 <= i < ids.len() && #[trigger] live_for_schema(s, ids[i], any_schema, now);
        assert(live_for_schema(next, ids[i], any_schema, now));
    }
    if has_valid_credential_spec(next, subject, any_schema, now) {
        let i = choose|i: int| 0 <= i < ids.len() && #[trigger] live_for_schema(next, ids[i], any_schema, now);
        assert(live_for_schema(s, ids[i], any_schema, now));
    }
    if has_credential_from_issuer_spec(s, subject, issuer, now) {
        let i = choose|i: int| 0 <= i < ids.len() && #[trigger] live_from_issuer(s, ids[i], issuer, now);
        assert(live_from_issuer(next, ids[i], issuer, now));
    }
    if has_credential_from_issuer_spec(next, subject, issuer, now) {
        let i = choose|i: int| 0 <= i < ids.len() && #[trigger] live_from_issuer(next, ids[i], issuer, now);
        assert(live_from_issuer(s, ids[i], issuer, now));
    }
}

/// A deactivated issuer can no longer issue credentials or register schemas.
pub proof fn law_deactivated_issuer_refused(
    s: RegistryModel,
    admin: Address,
    issuer: Address,
    subject: Address,
    subjects: Seq<Address>,
    schema_id: u32,
    duration_seconds: u64,
    now: u64,
    name: Vec<u8>,
    description: Vec<u8>,
)
    requires
        deactivate_issuer_op(s, admin, issuer) is Ok,
        subjects.len() > 0,
    ensures
        ({
            let next = deactivate_issuer_op(s, admin, issuer)->Ok_0.0;
            &&& issue_credential_op(next, issuer, subject, schema_id, duration_seconds, now) == Err::<
                (RegistryModel, u64),
                ContractError,
            >(ContractError::IssuerNotActive)
            &&& batch_issue_credentials_op(next, issuer, subjects, schema_id, duration_seconds, now)
                == Err::<(RegistryModel, Seq<u64>), ContractError>(ContractError::IssuerNotActive)
            &&& register_schema_op(next, issuer, name, description) == Err::<(RegistryModel, u32), ContractError>(
                ContractError::IssuerNotActive,
            )
        }),
{
}

/// An EVM attestation is bridged at most once: once bridged, every further
/// request to bridge it is refused.
pub proof fn law_attestation_bridged_once(
    s: RegistryModel,
    operator: Address,
    subject: Address,
    schema_id: u32,
    bridge_data: BridgeAttestation,
    duration_seconds: u64,
    now: u64,
    other_operator: Address,
    other_subject: Address,
    other_schema_id: u32,
    other_duration: u64,
    later: u64,
)
    requires
        bridge_credential_op(s, operator, subject, schema_id, bridge_data, duration_seconds, now) is Ok,
    ensures
        bridge_credential_op(
            bridge_credential_op(s, operator, subject, schema_id, bridge_data, duration_seconds, now)->Ok_0.0,
            other_operator,
            other_subject,
            other_schema_id,
            bridge_data,
            other_duration,
            later,
        ) is Err,
{
}

/// The registry is initialized once.
pub proof fn law_initialized_once(s: RegistryModel, admin: Address, other_admin: Address)
    requires
        initialize_op(s, admin) is Ok,
    ensures
        initialize_op(initialize_op(s, admin)->Ok_0.0, other_admin) == Err::<(RegistryModel, ()), ContractError>(
            ContractError::AlreadyInitialized,
        ),
{
}


/// A bridged credential counts towards the subject's identity but leaves its
/// reputation as it was (`0` for a new identity).
pub proof fn law_bridging_keeps_reputation(
    s: RegistryModel,
    operator: Address,
    subject: Address,
    schema_id: u32,
    bridge_data: BridgeAttestation,
    duration_seconds: u64,
    now: u64,
)
    requires
        bridge_credential_op(s, operator, subject, schema_id, bridge_data, duration_seconds, now) is Ok,
    ensures
        ({
            let next = bridge_credential_op(s, operator, subject, schema_id, bridge_data, duration_seconds, now)->Ok_0.0;
            &&& s.identities.contains_key(subject) ==> next.identities[subject].reputation_score
                == s.identities[subject].reputation_score && next.identities[subject].credential_count
                == s.identities[subject].credential_count + 1
            &&& !s.identities.contains_key(subject) ==> next.identities[subject].reputation_score == 0
                && next.identities[subject].credential_count == 1
        }),
{
}


/// The state after running `ops` in order from `s`, or `None` when one of them
/// is refused.
pub open spec fn run_from(s: RegistryModel, ops: Seq<Operation>) -> Option<RegistryModel>
    decreases ops.len(),
{
    if ops.len() == 0 {
        Some(s)
    } else {
        match run_from(s, ops.drop_last()) {
            None => None,
            Some(t) => apply(t, ops.last()),
        }
    }
}

/// Every run of accepted requests from a consistent registry ends in a
/// consistent registry.
pub proof fn law_consistency_along_runs(s: RegistryModel, ops: Seq<Operation>)
    requires
        registry_invariant(s),
        run_from(s, ops) is Some,
    ensures
        registry_invariant(run_from(s, ops)->Some_0),
    decreases ops.len(),
{
    if ops.len() > 0 {
        law_consistency_along_runs(s, ops.drop_last());
        law_consistency_preserved(run_from(s, ops.drop_last())->Some_0, ops.last());
    }
}

/// Every registry reachable from a fresh one by accepted requests is consistent.
pub proof fn law_reachable_states_consistent(ops: Seq<Operation>)
    requires
        run_from(empty_registry(), ops) is Some,
    ensures
        registry_invariant(run_from(empty_registry(), ops)->Some_0),
{
    law_empty_registry_consistent();
    law_consistency_along_runs(empty_registry(), ops);
}

/// Once a credential exists it exists after every later run of accepted
/// requests, with the same subject, issuer, schema and issue time; once revoked it
/// stays revoked.
pub proof fn law_revocation_is_permanent(
    ops: Seq<Operation>,
    later: Seq<Operation>,
    credential_id: u64,
)
    requires
        run_from(empty_registry(), ops) is Some,
        run_from(empty_registry(), ops)->Some_0.credentials.contains_key(credential_id),
        run_from(run_from(empty_registry(), ops)->Some_0, later) is Some,
    ensures
        ({
            let s = run_from(empty_registry(), ops)->Some_0;
            let t = run_from(s, later)->Some_0;
            &&& t.credentials.contains_key(credential_id)
            &&& t.credentials[credential_id].id == s.credentials[credential_id].id
            &&& t.credentials[credential_id].subject == s.credentials[credential_id].subject
            &&& t.credentials[credential_id].issuer == s.credentials[credential_id].issuer
            &&& t.credentials[credential_id].schema_id == s.credentials[credential_id].schema_id
            &&& t.credentials[credential_id].issued_at == s.credentials[credential_id].issued_at
            &&& s.credentials[credential_id].revoked ==> t.credentials[credential_id].revoked
        }),
{
    law_reachable_states_consistent(ops);
    law_revocation_permanent_from(run_from(empty_registry(), ops)->Some_0, later, credential_id);
}

/// From any consistent registry (every valid `StellarIdContract` is one, by
/// `StellarIdContract::lemma_registry_consistent`), a credential that exists exists after every
/// later run of accepted requests, with the same id, subject, issuer, schema and
/// issue time; once revoked it stays revoked: no request clears the flag or
/// deletes the credential.
pub proof fn law_revocation_permanent_from(s: RegistryModel, ops: Seq<Operation>, credential_id: u64)
    requires
        registry_invariant(s),
        s.credentials.contains_key(credential_id),
        run_from(s, ops) is Some,
    ensures
        ({
            let t = run_from(s, ops)->Some_0;
            &&& t.credentials.contains_key(credential_id)
            &&& t.credentials[credential_id].id == s.credentials[credential_id].id
            &&& t.credentials[credential_id].subject == s.credentials[credential_id].subject
            &&& t.credentials[credential_id].issuer == s.credentials[credential_id].issuer
            &&& t.credentials[credential_id].schema_id == s.credentials[credential_id].schema_id
            &&& t.credentials[credential_id].issued_at == s.credentials[credential_id].issued_at
            &&& s.credentials[credential_id].revoked ==> t.credentials[credential_id].revoked
        }),
    decreases ops.len(),
{
    if ops.len() > 0 {
        law_revocation_permanent_from(s, ops.drop_last(), credential_id);
        law_consistency_along_runs(s, ops.drop_last());
        law_credentials_permanent(run_from(s, ops.drop_last())->Some_0, ops.last(), credential_id);
    }
}

/// In every reachable registry the credential ids are exactly `1..=count`, each
/// credential is filed under its own id, and each id appears exactly once in
/// exactly one subject's list: that of the credential's subject.
pub proof fn law_credential_ids_dense_and_listed_once(
    ops: Seq<Operation>,
    credential_id: u64,
    a: Address,
    i: int,
    j: int,
)
    requires
        run_from(empty_registry(), ops) is Some,
    ensures
        ({
            let s = run_from(empty_registry(), ops)->Some_0;
            let list = ids_of(s.subject_credentials, a);
            &&& s.credentials.contains_key(credential_id) <==> 1 <= credential_id <= s.credential_count
            &&& s.credentials.contains_key(credential_id) ==> s.credentials[credential_id].id == credential_id
                && ids_of(s.subject_credentials, s.credentials[credential_id].subject).contains(credential_id)
            &&& 0 <= i < list.len() && list[i] == credential_id ==> s.credentials.contains_key(credential_id)
                && s.credentials[credential_id].subject == a
            &&& 0 <= i < j < list.len() ==> list[i] != list[j]
        }),
{
    law_reachable_states_consistent(ops);
    let s = run_from(empty_registry(), ops)->Some_0;
    let list = ids_of(s.subject_credentials, a);
    if 0 <= i < list.len() {
        assert(s.subject_credentials.contains_key(a));
        assert(listed_for(s, a, s.subject_credentials[a][i]));
    }
    if 0 <= i < j < list.len() {
        assert(s.subject_credentials[a][i] != s.subject_credentials[a][j]);
    }
}

/// In every reachable registry a subject has an identity exactly when it holds
/// credentials; the identity is the subject's, counts them, and its reputation
/// is at most 1000.
pub proof fn law_identity_tracks_credentials(ops: Seq<Operation>, a: Address)
    requires
        run_from(empty_registry(), ops) is Some,
    ensures
        ({
            let s = run_from(empty_registry(), ops)->Some_0;
            let list = ids_of(s.subject_credentials, a);
            &&& s.identities.contains_key(a) <==> list.len() > 0
            &&& s.identities.contains_key(a) ==> s.identities[a].subject == a
                && s.identities[a].credential_count == list.len()
                && s.identities[a].reputation_score <= 1000
        }),
{
    law_reachable_states_consistent(ops);
    let s = run_from(empty_registry(), ops)->Some_0;
    if s.identities.contains_key(a) {
        assert(identity_sound(s.identities[a], a));
    }
}

/// Issuing credentials to `subjects` one request after another.
pub open spec fn issue_in_turn(
    s: RegistryModel,
    issuer: Address,
    subjects: Seq<Address>,
    schema_id: u32,
    duration_seconds: u64,
    now: u64,
) -> Outcome<Seq<u64>>
    decreases subjects.len(),
{
    if subjects.len() == 0 {
        Ok((s, Seq::empty()))
    } else {
        match issue_in_turn(s, issuer, subjects.drop_last(), schema_id, duration_seconds, now) {
            Err(e) => Err(e),
            Ok((s1, ids)) => match issue_credential_op(
                s1,
                issuer,
                subjects.last(),
                schema_id,
                duration_seconds,
                now,
            ) {
                Err(e) => Err(e),
                Ok((s2, id)) => Ok((s2, ids.push(id))),
            },
        }
    }
}

proof fn lemma_in_turn_matches_each(
    s: RegistryModel,
    issuer: Address,
    subjects: Seq<Address>,
    schema_id: u32,
    duration_seconds: u64,
    now: u64,
    k: int,
)
    requires
        0 <= k <= subjects.len(),
        issuance_refusal(s, issuer, schema_id) is None,
        expiry(now, duration_seconds) <= u64::MAX,
        s.issuers[issuer].credential_count + subjects.len() <= u64::MAX,
        issue_each(
            s,
            issuer,
            subjects.take(k),
            schema_id,
            expiry(now, duration_seconds) as u64,
            s.issuers[issuer].trust_level,
            now,
        ) is Ok,
    ensures
        ({
            let (s1, ids) = issue_each(
                s,
                issuer,
                subjects.take(k),
                schema_id,
                expiry(now, duration_seconds) as u64,
                s.issuers[issuer].trust_level,
                now,
            )->Ok_0;
            let turn = issue_in_turn(s, issuer, subjects.take(k), schema_id, duration_seconds, now);
            &&& turn is Ok
            &&& turn->Ok_0.1 == ids
            &&& turn->Ok_0.0.events.len() == s.events.len() + k
            &&& turn->Ok_0.0 == (RegistryModel {
                issuers: s1.issuers.insert(
                    issuer,
                    Issuer {
                        credential_count: (s.issuers[issuer].credential_count + k) as u64,
                        ..s.issuers[issuer]
                    },
                ),
                events: turn->Ok_0.0.events,
                ..s1
            })
        }),
    decreases k,
{
    let record = s.issuers[issuer];
    let expires_at = expiry(now, duration_seconds) as u64;
    let trust = record.trust_level;
    if k == 0 {
        assert(subjects.take(0) =~= Seq::<Address>::empty());
        assert(s.issuers.insert(issuer, Issuer { credential_count: (record.credential_count + 0) as u64, ..record })
            =~= s.issuers);
    } else {
        let prev = subjects.take(k - 1);
        assert(subjects.take(k).drop_last() =~= prev);
        assert(subjects.take(k).last() == subjects[k - 1]);
        if issue_each(s, issuer, prev, schema_id, expires_at, trust, now) is Err {
            assert(false);
        }
        lemma_in_turn_matches_each(s, issuer, subjects, schema_id, duration_seconds, now, k - 1);
        lemma_issue_each_preserves(s, issuer, prev, schema_id, expires_at, trust, now);
        let (s1, ids1) = issue_each(s, issuer, prev, schema_id, expires_at, trust, now)->Ok_0;
        let (m, ids_m) = issue_in_turn(s, issuer, prev, schema_id, duration_seconds, now)->Ok_0;
        let subject = subjects[k - 1];
        assert(m.issuers[issuer] == Issuer {
            credential_count: (record.credential_count + k - 1) as u64,
            ..record
        });
        assert(issuance_refusal(m, issuer, schema_id) is None);
        let (s2, id) = issue_step(s1, issuer, subject, schema_id, expires_at, trust, now)->Ok_0;
        let (m2, id_m) = issue_step(m, issuer, subject, schema_id, expires_at, trust, now)->Ok_0;
        assert(id_m == id);
        assert(m2 == RegistryModel { issuers: m.issuers, events: m.events, ..s2 });
        let (m3, id3) = issue_credential_op(m, issuer, subject, schema_id, duration_seconds, now)->Ok_0;
        assert(m3.issuers =~= s2.issuers.insert(
            issuer,
            Issuer { credential_count: (record.credential_count + k) as u64, ..record },
        ));
    }
}

/// Issuing to a list of subjects in one batch leaves the registry as issuing to
/// each subject in turn, by separate requests at the same time, would (but for
/// the events: one for the batch, one per credential otherwise), with the same
/// ids.
pub proof fn law_batch_is_issuance_in_turn(
    s: RegistryModel,
    issuer: Address,
    subjects: Seq<Address>,
    schema_id: u32,
    duration_seconds: u64,
    now: u64,
)
    requires
        batch_issue_credentials_op(s, issuer, subjects, schema_id, duration_seconds, now) is Ok,
    ensures
        ({
            let (batched, ids) = batch_issue_credentials_op(s, issuer, subjects, schema_id, duration_seconds, now)->Ok_0;
            let turn = issue_in_turn(s, issuer, subjects, schema_id, duration_seconds, now);
            &&& turn is Ok
            &&& turn->Ok_0.1 == ids
            &&& turn->Ok_0.0.events.len() == s.events.len() + subjects.len()
            &&& (RegistryModel { events: Seq::empty(), ..turn->Ok_0.0 }) == (RegistryModel {
                events: Seq::empty(),
                ..batched
            })
        }),
{
    assert(subjects.take(subjects.len() as int) =~= subjects);
    lemma_in_turn_matches_each(s, issuer, subjects, schema_id, duration_seconds, now, subjects.len() as int);
    let expires_at = expiry(now, duration_seconds) as u64;
    lemma_issue_each_preserves(s, issuer, subjects, schema_id, expires_at, s.issuers[issuer].trust_level, now);
    let turn = issue_in_turn(s, issuer, subjects, schema_id, duration_seconds, now);
    let (batched, ids) = batch_issue_credentials_op(s, issuer, subjects, schema_id, duration_seconds, now)->Ok_0;
    assert((RegistryModel { events: Seq::empty(), ..turn->Ok_0.0 }) =~= (RegistryModel {
        events: Seq::empty(),
        ..batched
    }));
}

/// Credential `id` exists, was issued by `issuer`, is not revoked, and either
/// never expires or expires after `now`.
pub open spec fn unrevoked_unexpired_from(s: RegistryModel, id: u64, issuer: Address, now: u64) -> bool {
    &&& s.credentials.contains_key(id)
    &&& s.credentials[id].issuer == issuer
    &&& !s.credentials[id].revoked
    &&& (s.credentials[id].expires_at == 0 || now < s.credentials[id].expires_at)
}

/// Credential `id` exists, is of `schema_id`, is not revoked, and either never
/// expires or expires after `now`.
pub open spec fn unrevoked_unexpired_of(s: RegistryModel, id: u64, schema_id: u32, now: u64) -> bool {
    &&& s.credentials.contains_key(id)
    &&& s.credentials[id].schema_id == schema_id
    &&& !s.credentials[id].revoked
    &&& (s.credentials[id].expires_at == 0 || now < s.credentials[id].expires_at)
}

/// A subject holds a valid credential from `issuer` exactly when one of the
/// credentials listed for the subject was issued by `issuer`, is not revoked and
/// has not expired at `now`: a revoked or expired credential never counts.
pub proof fn law_credential_from_issuer_is_unrevoked_and_unexpired(
    s: RegistryModel,
    subject: Address,
    issuer: Address,
    now: u64,
)
    ensures
        has_credential_from_issuer_spec(s, subject, issuer, now) <==> exists|i: int|
            0 <= i < ids_of(s.subject_credentials, subject).len()
                && #[trigger] unrevoked_unexpired_from(
                s,
                ids_of(s.subject_credentials, subject)[i],
                issuer,
                now,
            ),
{
    let ids = ids_of(s.subject_credentials, subject);
    if has_credential_from_issuer_spec(s, subject, issuer, now) {
        let i = choose|i: int| 0 <= i < ids.len() && #[trigger] live_from_issuer(s, ids[i], issuer, now);
        assert(unrevoked_unexpired_from(s, ids[i], issuer, now));
    }
    if exists|i: int| 0 <= i < ids.len() && #[trigger] unrevoked_unexpired_from(s, ids[i], issuer, now) {
        let i = choose|i: int| 0 <= i < ids.len() && #[trigger] unrevoked_unexpired_from(s, ids[i], issuer, now);
        assert(live_from_issuer(s, ids[i], issuer, now));
    }
}

/// A subject has a valid commitment for `schema_id` exactly when it has submitted
/// a commitment for `schema_id` and one of the credentials listed for it is of
/// that same schema, not revoked and not expired at `now`; a live credential of
/// another schema does not count.
pub proof fn law_valid_commitment_needs_live_credential_of_schema(
    s: RegistryModel,
    subject: Address,
    schema_id: u32,
    now: u64,
)
    ensures
        has_valid_commitment_spec(s, subject, schema_id, now) <==> {
            &&& s.commitments.contains_key(CommitmentKey { subject, schema_id })
            &&& exists|i: int|
                0 <= i < ids_of(s.subject_credentials, subject).len()
                    && #[trigger] unrevoked_unexpired_of(
                    s,
                    ids_of(s.subject_credentials, subject)[i],
                    schema_id,
                    now,
                )
        },
{
    let ids = ids_of(s.subject_credentials, subject);
    if has_valid_credential_spec(s, subject, schema_id, now) {
        let i = choose|i: int| 0 <= i < ids.len() && #[trigger] live_for_schema(s, ids[i], schema_id, now);
        assert(unrevoked_unexpired_of(s, ids[i], schema_id, now));
    }
    if exists|i: int| 0 <= i < ids.len() && #[trigger] unrevoked_unexpired_of(s, ids[i], schema_id, now) {
        let i = choose|i: int| 0 <= i < ids.len() && #[trigger] unrevoked_unexpired_of(s, ids[i], schema_id, now);
        assert(live_for_schema(s, ids[i], schema_id, now));
    }
}

/// A bridged credential is recorded as an issued one: under the next id, for
/// `subject` and `schema_id`, issued by the operator at `now`, not revoked, and
/// expiring `duration_seconds` after `now`, or never when that is `0`, whatever
/// the attestation's own EVM expiry.
pub proof fn law_bridged_credential_recorded_as_issued(
    s: RegistryModel,
    operator: Address,
    subject: Address,
    schema_id: u32,
    bridge_data: BridgeAttestation,
    duration_seconds: u64,
    now: u64,
)
    requires
        bridge_credential_op(s, operator, subject, schema_id, bridge_data, duration_seconds, now) is Ok,
    ensures
        ({
            let (next, id) = bridge_credential_op(
                s,
                operator,
                subject,
                schema_id,
                bridge_data,
                duration_seconds,
                now,
            )->Ok_0;
            &&& id == s.credential_count + 1
            &&& next.credentials.contains_key(id)
            &&& next.credentials[id].id == id
            &&& next.credentials[id].subject == subject
            &&& next.credentials[id].issuer == operator
            &&& next.credentials[id].schema_id == schema_id
            &&& next.credentials[id].issued_at == now
            &&& !next.credentials[id].revoked
            &&& duration_seconds == 0 ==> next.credentials[id].expires_at == 0
            &&& duration_seconds > 0 ==> next.credentials[id].expires_at == now + duration_seconds
        }),
{
}

/// Registering an issuer is accepted exactly when the caller is the admin and the
/// trust level is in `1..=100`, whether or not the issuer was registered before;
/// it then records the issuer afresh, active, with the given name and trust level
/// and no credentials issued, and leaves every other issuer as it was.
pub proof fn law_register_issuer_writes_fresh_record(
    s: RegistryModel,
    admin: Address,
    issuer: Address,
    name: Vec<u8>,
    trust_level: u32,
    other: Address,
)
    ensures
        register_issuer_op(s, admin, issuer, name, trust_level) is Ok <==> (s.admin == Some(admin) && 1
            <= trust_level <= 100),
        register_issuer_op(s, admin, issuer, name, trust_level) is Ok ==> ({
            let next = register_issuer_op(s, admin, issuer, name, trust_level)->Ok_0.0;
            &&& next.issuers.contains_key(issuer)
            &&& next.issuers[issuer] == Issuer {
                address: issuer,
                name,
                trust_level,
                active: true,
                credential_count: 0,
            }
            &&& other != issuer ==> next.issuers.contains_key(other) == s.issuers.contains_key(other)
                && next.issuers[other] == s.issuers[other]
        }),
{
}

/// Submitting a commitment is accepted exactly when the schema exists, active or
/// not; it then stores the commitment for the subject and schema, replacing any
/// earlier one.
pub proof fn law_commitment_accepted_for_any_existing_schema(
    s: RegistryModel,
    subject: Address,
    schema_id: u32,
    commitment: [u8; 32],
    now: u64,
)
    ensures
        submit_commitment_op(s, subject, schema_id, commitment, now) is Ok <==> s.schemas.contains_key(
            schema_id,
        ),
        submit_commitment_op(s, subject, schema_id, commitment, now) is Ok ==> ({
            let next = submit_commitment_op(s, subject, schema_id, commitment, now)->Ok_0.0;
            &&& next.commitments.contains_key(CommitmentKey { subject, schema_id })
            &&& next.commitments[CommitmentKey { subject, schema_id }] == CredentialCommitment {
                subject,
                commitment,
                schema_id,
                committed_at: now,
            }
        }),
{
}

} // verus!
