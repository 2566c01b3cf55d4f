use soroban_sdk::Env;
use stellar_id::{
    bytes_equal, commitment_preimage, compute_commitment, Address, AddressKind, BridgeAttestation,
    ContractError, Event, StellarIdContract,
};

fn account(n: u128) -> Address {
    Address { kind: AddressKind::Account, key_hi: 0, key_lo: n }
}

fn hex32(s: &str) -> [u8; 32] {
    let mut out = [0u8; 32];
    for i in 0..32 {
        out[i] = u8::from_str_radix(&s[2 * i..2 * i + 2], 16).unwrap();
    }
    out
}

/// An initialized registry with one active issuer (trust 80) and one schema.
fn registry() -> (StellarIdContract, Address, Address, u32) {
    let admin = account(1);
    let issuer = account(10);
    let mut c = StellarIdContract::new();
    c.initialize(admin).unwrap();
    c.register_issuer(admin, issuer, b"Anchor".to_vec(), 80).unwrap();
    let schema = c
        .register_schema(issuer, b"KYC Verified".to_vec(), b"KYC".to_vec())
        .unwrap();
    (c, admin, issuer, schema)
}

fn attestation(operator: Address, uid: u8, expiry: u64) -> BridgeAttestation {
    BridgeAttestation {
        evm_chain_id: 1,
        evm_uid: [uid; 32],
        evm_attester: [3u8; 20],
        evm_schema_uid: [4u8; 32],
        evm_expiry: expiry,
        bridge_operator: operator,
    }
}

#[test]
fn reputation_formula_values() {
    assert_eq!(StellarIdContract::compute_reputation(1, 80), 18);
    assert_eq!(StellarIdContract::compute_reputation(2, 80), 28);
    assert_eq!(StellarIdContract::compute_reputation(0, 100), 10);
    assert_eq!(StellarIdContract::compute_reputation(99, 100), 1000);
    assert_eq!(StellarIdContract::compute_reputation(150, 1), 1000);
    assert_eq!(StellarIdContract::compute_reputation(u32::MAX, 100), 1000);
    assert_eq!(StellarIdContract::compute_reputation(u32::MAX, u32::MAX), 1000);
    assert_eq!(StellarIdContract::compute_reputation(0, u32::MAX), 1000);
    assert_eq!(StellarIdContract::compute_reputation(0, 9), 0);
}

#[test]
fn reputation_is_capped_and_monotone() {
    let mut previous = 0;
    for count in 0..200u32 {
        let score = StellarIdContract::compute_reputation(count, 55);
        assert!(score >= previous);
        assert!(score <= 1000);
        previous = score;
    }
}

#[test]
fn first_credential_reputation_follows_formula() {
    let (mut c, _, issuer, schema) = registry();
    let subject = account(100);
    c.issue_credential(issuer, subject, schema, 0, 1000).unwrap();
    let identity = c.get_identity(subject).unwrap();
    assert_eq!(identity.reputation_score, 18);
    assert_eq!(identity.created_at, 1000);
    c.issue_credential(issuer, subject, schema, 0, 1001).unwrap();
    let identity = c.get_identity(subject).unwrap();
    assert_eq!(identity.credential_count, 2);
    assert_eq!(identity.reputation_score, 28);
    assert_eq!(identity.created_at, 1000);
}

#[test]
fn issuing_updates_issuer_count_and_ids_are_sequential() {
    let (mut c, _, issuer, schema) = registry();
    let a = c.issue_credential(issuer, account(100), schema, 0, 1).unwrap();
    let b = c.issue_credential(issuer, account(101), schema, 0, 1).unwrap();
    let batch = c
        .batch_issue_credentials(issuer, &vec![account(102), account(103)], schema, 0, 1)
        .unwrap();
    assert_eq!((a, b), (1, 2));
    assert_eq!(batch, vec![3, 4]);
    assert_eq!(c.get_credential_count(), 4);
    assert_eq!(c.get_issuer(issuer).unwrap().credential_count, 4);
    assert_eq!(c.get_credential(3).unwrap().subject, account(102));
}

#[test]
fn batch_with_repeated_subject_counts_twice() {
    let (mut c, _, issuer, schema) = registry();
    let s = account(100);
    let ids = c.batch_issue_credentials(issuer, &vec![s, s], schema, 0, 5).unwrap();
    assert_eq!(ids, vec![1, 2]);
    assert_eq!(c.get_subject_credentials(s), vec![1, 2]);
    let identity = c.get_identity(s).unwrap();
    assert_eq!(identity.credential_count, 2);
    assert_eq!(identity.reputation_score, 28);
    let events = c.take_events();
    assert_eq!(
        events.last(),
        Some(&Event::CredentialsBatchIssued { count: 2, issuer, schema_id: schema })
    );
}

#[test]
fn refused_batch_changes_nothing() {
    let (mut c, _, issuer, schema) = registry();
    c.take_events();
    let r = c.batch_issue_credentials(issuer, &vec![account(100)], schema, u64::MAX, 10);
    assert_eq!(r, Err(ContractError::ArithmeticOverflow));
    assert_eq!(c.get_credential_count(), 0);
    assert!(c.get_subject_credentials(account(100)).is_empty());
    assert!(c.take_events().is_empty());
}

#[test]
fn expiry_overflow_is_refused() {
    let (mut c, _, issuer, schema) = registry();
    let r = c.issue_credential(issuer, account(100), schema, u64::MAX, 10);
    assert_eq!(r, Err(ContractError::ArithmeticOverflow));
    assert_eq!(r.unwrap_err().message(), "arithmetic overflow");
    let id = c
        .issue_credential(issuer, account(100), schema, u64::MAX - 10, 10)
        .unwrap();
    assert_eq!(c.get_credential(id).unwrap().expires_at, u64::MAX);
    assert_eq!(
        c.renew_credential(issuer, id, 1),
        Err(ContractError::ArithmeticOverflow)
    );
}

#[test]
fn validity_boundary_is_strict() {
    let (mut c, _, issuer, schema) = registry();
    let subject = account(100);
    c.issue_credential(issuer, subject, schema, 500, 1000).unwrap();
    assert!(c.has_valid_credential(subject, schema, 1499));
    assert!(!c.has_valid_credential(subject, schema, 1500));
    assert!(c.has_credential_from_issuer(subject, issuer, 1499));
    assert!(!c.has_credential_from_issuer(subject, issuer, 1500));
}

#[test]
fn validity_needs_matching_schema_and_owner() {
    let (mut c, _, issuer, schema) = registry();
    let other_schema = c
        .register_schema(issuer, b"Merchant".to_vec(), b"m".to_vec())
        .unwrap();
    let subject = account(100);
    c.issue_credential(issuer, subject, other_schema, 0, 1).unwrap();
    assert!(!c.has_valid_credential(subject, schema, 1));
    assert!(c.has_valid_credential(subject, other_schema, 1));
    assert!(!c.has_valid_credential(account(101), other_schema, 1));
}

#[test]
fn initialize_only_once() {
    let mut c = StellarIdContract::new();
    assert_eq!(c.initialize(account(1)), Ok(()));
    let r = c.initialize(account(2));
    assert_eq!(r, Err(ContractError::AlreadyInitialized));
    assert_eq!(r.unwrap_err().message(), "Already initialized");
    // the first admin is still in charge
    assert_eq!(
        c.register_issuer(account(2), account(10), b"x".to_vec(), 10),
        Err(ContractError::OnlyAdminCanRegisterIssuers)
    );
    assert_eq!(c.register_issuer(account(1), account(10), b"x".to_vec(), 10), Ok(()));
}

#[test]
fn uninitialized_registry_refuses_admin_actions() {
    let mut c = StellarIdContract::new();
    let r = c.register_issuer(account(1), account(10), b"x".to_vec(), 10);
    assert_eq!(r, Err(ContractError::NotInitialized));
    assert_eq!(r.unwrap_err().message(), "Not initialized");
    assert_eq!(c.deactivate_issuer(account(1), account(10)), Err(ContractError::NotInitialized));
    assert_eq!(
        c.register_bridge_operator(account(1), account(5)),
        Err(ContractError::NotInitialized)
    );
    assert_eq!(
        c.revoke_bridge_operator(account(1), account(5)),
        Err(ContractError::NotInitialized)
    );
}

#[test]
fn trust_level_range_is_inclusive() {
    let mut c = StellarIdContract::new();
    c.initialize(account(1)).unwrap();
    assert_eq!(c.register_issuer(account(1), account(10), b"a".to_vec(), 1), Ok(()));
    assert_eq!(c.register_issuer(account(1), account(11), b"b".to_vec(), 100), Ok(()));
    assert_eq!(
        c.register_issuer(account(1), account(12), b"c".to_vec(), 101),
        Err(ContractError::InvalidTrustLevel)
    );
}

#[test]
fn every_refusal_has_its_text() {
    let (mut c, admin, issuer, schema) = registry();
    let stranger = account(77);

    let r = c.deactivate_issuer(admin, stranger);
    assert_eq!(r, Err(ContractError::IssuerNotFound));
    assert_eq!(r.unwrap_err().message(), "Issuer not found");

    let r = c.register_bridge_operator(stranger, stranger);
    assert_eq!(r, Err(ContractError::OnlyAdminCanRegisterBridgeOperators));
    assert_eq!(r.unwrap_err().message(), "Only admin can register bridge operators");

    let r = c.revoke_bridge_operator(stranger, stranger);
    assert_eq!(r, Err(ContractError::OnlyAdminCanRevokeBridgeOperators));
    assert_eq!(r.unwrap_err().message(), "Only admin can revoke bridge operators");

    let r = c.authorize_sub_issuer(stranger, account(78));
    assert_eq!(r, Err(ContractError::ParentIssuerNotFound));
    assert_eq!(r.unwrap_err().message(), "Parent issuer not found");

    let r = c.register_schema(stranger, b"x".to_vec(), b"y".to_vec());
    assert_eq!(r, Err(ContractError::IssuerNotFound));

    let r = c.register_schema(issuer, Vec::new(), b"y".to_vec());
    assert_eq!(r, Err(ContractError::EmptySchemaName));
    assert_eq!(r.unwrap_err().message(), "Schema name cannot be empty");

    let r = c.deactivate_schema(issuer, 99);
    assert_eq!(r, Err(ContractError::SchemaNotFound));
    assert_eq!(r.unwrap_err().message(), "Schema not found");

    c.deactivate_schema(issuer, schema).unwrap();
    let r = c.deactivate_schema(issuer, schema);
    assert_eq!(r, Err(ContractError::SchemaAlreadyInactive));
    assert_eq!(r.unwrap_err().message(), "Schema is already inactive");

    let r = c.issue_credential(stranger, account(100), schema, 0, 1);
    assert_eq!(r, Err(ContractError::NotARegisteredIssuer));
    assert_eq!(r.unwrap_err().message(), "Not a registered issuer");

    let r = c.issue_credential(issuer, account(100), 99, 0, 1);
    assert_eq!(r, Err(ContractError::SchemaNotFound));

    let r = c.revoke_credential(issuer, 42);
    assert_eq!(r, Err(ContractError::CredentialNotFound));
    assert_eq!(r.unwrap_err().message(), "Credential not found");

    let r = c.renew_credential(issuer, 42, 5);
    assert_eq!(r, Err(ContractError::CredentialNotFound));

    let r = c.get_credential(42);
    assert_eq!(r, Err(ContractError::CredentialNotFound));

    let r = c.get_identity(account(100));
    assert_eq!(r, Err(ContractError::IdentityNotFound));
    assert_eq!(r.unwrap_err().message(), "Identity not found");

    assert_eq!(c.get_issuer(stranger).unwrap_err(), ContractError::IssuerNotFound);
    assert_eq!(c.get_schema(99).unwrap_err(), ContractError::SchemaNotFound);

    let r = c.submit_commitment(account(100), 99, [1u8; 32], 1);
    assert_eq!(r, Err(ContractError::SchemaNotFound));
}

#[test]
fn revocation_is_permanent_and_single() {
    let (mut c, _, issuer, schema) = registry();
    let id = c.issue_credential(issuer, account(100), schema, 100, 1).unwrap();
    c.revoke_credential(issuer, id).unwrap();
    let r = c.revoke_credential(issuer, id);
    assert_eq!(r, Err(ContractError::CredentialAlreadyRevoked));
    assert_eq!(r.unwrap_err().message(), "Credential already revoked");
    c.issue_credential(issuer, account(101), schema, 0, 1).unwrap();
    assert!(c.get_credential(id).unwrap().revoked);
}

#[test]
fn refusals_publish_no_event() {
    let (mut c, admin, issuer, _) = registry();
    c.take_events();
    assert!(c.register_issuer(admin, issuer, b"x".to_vec(), 0).is_err());
    assert!(c.revoke_credential(issuer, 7).is_err());
    assert!(c.take_events().is_empty());
    c.revoke_sub_issuer(issuer, account(5)).unwrap();
    assert_eq!(
        c.take_events(),
        vec![Event::SubIssuerRevoked { parent: issuer, sub_issuer: account(5) }]
    );
}

#[test]
fn bridged_credential_counts_without_reputation() {
    let (mut c, admin, issuer, schema) = registry();
    let operator = account(50);
    let subject = account(100);
    c.register_bridge_operator(admin, operator).unwrap();
    let id = c
        .bridge_credential(operator, subject, schema, attestation(operator, 1, 0), 0, 1000)
        .unwrap();
    let identity = c.get_identity(subject).unwrap();
    assert_eq!(identity.credential_count, 1);
    assert_eq!(identity.reputation_score, 0);
    assert_eq!(c.get_subject_credentials(subject), vec![id]);
    assert_eq!(c.get_bridge_credentials(subject), vec![id]);
    assert!(c.has_credential_from_issuer(subject, operator, 1000));
    c.issue_credential(issuer, subject, schema, 0, 1000).unwrap();
    let identity = c.get_identity(subject).unwrap();
    assert_eq!(identity.credential_count, 2);
    assert_eq!(identity.reputation_score, 28);
    c.bridge_credential(operator, subject, schema, attestation(operator, 2, 0), 0, 1000)
        .unwrap();
    let identity = c.get_identity(subject).unwrap();
    assert_eq!(identity.credential_count, 3);
    assert_eq!(identity.reputation_score, 28);
    assert_eq!(c.get_bridge_metadata(id), Some(attestation(operator, 1, 0)));
    assert_eq!(c.get_bridge_metadata(2), None);
}

#[test]
fn bridge_accepts_unexpired_attestation_and_distinct_uids() {
    let (mut c, admin, _, schema) = registry();
    let operator = account(50);
    c.register_bridge_operator(admin, operator).unwrap();
    assert!(c
        .bridge_credential(operator, account(100), schema, attestation(operator, 1, 1001), 60, 1000)
        .is_ok());
    assert_eq!(c.get_credential(1).unwrap().expires_at, 1060);
    // same uid on another chain is a different attestation
    let mut other_chain = attestation(operator, 1, 0);
    other_chain.evm_chain_id = 2;
    assert!(c.bridge_credential(operator, account(100), schema, other_chain, 0, 1000).is_ok());
    assert_eq!(
        c.bridge_credential(operator, account(101), 7, attestation(operator, 1, 0), 0, 2000),
        Err(ContractError::AttestationAlreadyBridged)
    );
}

#[test]
fn sub_issuer_relations_are_per_pair() {
    let (mut c, admin, issuer, _) = registry();
    let other_parent = account(11);
    c.register_issuer(admin, other_parent, b"p".to_vec(), 5).unwrap();
    c.authorize_sub_issuer(issuer, account(20)).unwrap();
    assert!(c.is_sub_issuer(issuer, account(20)));
    assert!(!c.is_sub_issuer(other_parent, account(20)));
    assert!(!c.is_sub_issuer(issuer, account(21)));
}

#[test]
fn commitment_digest_matches_sha256() {
    let env = Env::default();
    let digest = compute_commitment(&env, 1, &[7u8; 32]);
    assert_eq!(
        digest,
        hex32("142b7aeb100f2df25d79461883c827f43abc17a374124ecdbf2ed9cecf75de35")
    );
    let mut blinding = [0u8; 32];
    for i in 0..32 {
        blinding[i] = i as u8;
    }
    let digest = compute_commitment(&env, 0x0102030405060708, &blinding);
    assert_eq!(
        digest,
        hex32("f8161e6a6caa7e1ab7c6f6c7153d18a6107b88c57d83d4b23644334547a5a27e")
    );
}

#[test]
fn commitment_preimage_layout() {
    let preimage = commitment_preimage(0x0102030405060708, &[9u8; 32]);
    assert_eq!(preimage.len(), 40);
    assert_eq!(&preimage[..8], &[8, 7, 6, 5, 4, 3, 2, 1]);
    assert!(preimage[8..].iter().all(|b| *b == 9));
}

#[test]
fn bytes_equal_compares_every_byte() {
    let a = [5u8; 32];
    let mut b = a;
    assert!(bytes_equal(&a, &b));
    b[31] = 6;
    assert!(!bytes_equal(&a, &b));
}

#[test]
fn commitment_is_per_subject_and_schema_and_replaced() {
    let env = Env::default();
    let (mut c, _, issuer, schema) = registry();
    let subject = account(100);
    let id = c.issue_credential(issuer, subject, schema, 0, 1).unwrap();
    let first = compute_commitment(&env, id, &[1u8; 32]);
    let second = compute_commitment(&env, id, &[2u8; 32]);
    c.submit_commitment(subject, schema, first, 1).unwrap();
    assert!(c.verify_commitment(&env, subject, schema, id, &[1u8; 32], 1));
    c.submit_commitment(subject, schema, second, 2).unwrap();
    assert!(!c.verify_commitment(&env, subject, schema, id, &[1u8; 32], 2));
    assert!(c.verify_commitment(&env, subject, schema, id, &[2u8; 32], 2));
    assert!(c.check_commitment_opening(subject, schema, id, &second, 2));
    assert!(!c.check_commitment_opening(subject, schema, id, &first, 2));
    // another subject cannot open with someone else's credential
    c.submit_commitment(account(101), schema, second, 2).unwrap();
    assert!(!c.verify_commitment(&env, account(101), schema, id, &[2u8; 32], 2));
    assert!(!c.has_valid_commitment(account(101), schema, 2));
}

#[test]
fn opened_commitment_implies_valid_commitment() {
    let env = Env::default();
    let (mut c, _, issuer, schema) = registry();
    let subject = account(100);
    let id = c.issue_credential(issuer, subject, schema, 10, 1).unwrap();
    let digest = compute_commitment(&env, id, &[3u8; 32]);
    c.submit_commitment(subject, schema, digest, 1).unwrap();
    for now in [1u64, 5, 10, 11, 20] {
        if c.verify_commitment(&env, subject, schema, id, &[3u8; 32], now) {
            assert!(c.has_valid_commitment(subject, schema, now));
        }
    }
    assert!(c.has_valid_commitment(subject, schema, 10));
    assert!(!c.has_valid_commitment(subject, schema, 11));
}

#[test]
fn deactivated_issuer_keeps_existing_credentials() {
    let (mut c, admin, issuer, schema) = registry();
    let subject = account(100);
    c.issue_credential(issuer, subject, schema, 0, 1).unwrap();
    c.deactivate_issuer(admin, issuer).unwrap();
    assert!(c.has_valid_credential(subject, schema, 2));
    assert_eq!(
        c.batch_issue_credentials(issuer, &vec![subject], schema, 0, 2),
        Err(ContractError::IssuerNotActive)
    );
}

#[test]
fn new_registry_is_empty() {
    let c = StellarIdContract::new();
    assert_eq!(c.get_credential_count(), 0);
    assert_eq!(c.get_schema_count(), 0);
    assert!(c.get_subject_credentials(account(1)).is_empty());
    assert!(c.get_bridge_credentials(account(1)).is_empty());
    assert!(!c.is_sub_issuer(account(1), account(2)));
    assert!(!c.has_valid_credential(account(1), 1, 0));
    assert!(!c.has_credential_from_issuer(account(1), account(2), 0));
    assert!(!c.has_valid_commitment(account(1), 1, 0));
}

#[test]
fn renewal_events_carry_new_expiry() {
    let (mut c, _, issuer, schema) = registry();
    let id = c.issue_credential(issuer, account(100), schema, 10, 100).unwrap();
    c.take_events();
    c.renew_credential(issuer, id, 5).unwrap();
    assert_eq!(
        c.take_events(),
        vec![Event::CredentialRenewed { credential_id: id, new_expires_at: 115 }]
    );
}

#[test]
fn contract_addresses_differ_from_accounts() {
    let (mut c, _, issuer, schema) = registry();
    let key = 100u128;
    let acct = Address { kind: AddressKind::Account, key_hi: 0, key_lo: key };
    let contract = Address { kind: AddressKind::Contract, key_hi: 0, key_lo: key };
    c.issue_credential(issuer, acct, schema, 0, 1).unwrap();
    assert!(c.has_valid_credential(acct, schema, 1));
    assert!(!c.has_valid_credential(contract, schema, 1));
}

#[test]
fn batch_matches_issuing_in_turn() {
    let subjects = vec![account(100), account(101), account(100)];
    let (mut batched, _, issuer, schema) = registry();
    batched.issue_credential(issuer, account(101), schema, 0, 1).unwrap();
    let ids = batched
        .batch_issue_credentials(issuer, &subjects, schema, 60, 7)
        .unwrap();

    let (mut single, _, _, _) = registry();
    single.issue_credential(issuer, account(101), schema, 0, 1).unwrap();
    let mut one_by_one = Vec::new();
    for s in &subjects {
        one_by_one.push(single.issue_credential(issuer, *s, schema, 60, 7).unwrap());
    }

    assert_eq!(ids, one_by_one);
    assert_eq!(batched.get_credential_count(), single.get_credential_count());
    assert_eq!(
        batched.get_issuer(issuer).unwrap(),
        single.get_issuer(issuer).unwrap()
    );
    for id in 1..=batched.get_credential_count() {
        assert_eq!(batched.get_credential(id), single.get_credential(id));
    }
    for s in [account(100), account(101)] {
        assert_eq!(batched.get_identity(s), single.get_identity(s));
        assert_eq!(batched.get_subject_credentials(s), single.get_subject_credentials(s));
    }
    // one event for the batch, one per credential otherwise
    assert_eq!(batched.take_events().len() + 2, single.take_events().len());
}

#[test]
fn identity_counts_the_subject_list() {
    let (mut c, admin, issuer, schema) = registry();
    let operator = account(50);
    c.register_bridge_operator(admin, operator).unwrap();
    let subject = account(100);
    assert!(c.get_identity(subject).is_err());
    assert!(c.get_subject_credentials(subject).is_empty());
    c.issue_credential(issuer, subject, schema, 0, 1).unwrap();
    c.bridge_credential(operator, subject, schema, attestation(operator, 9, 0), 0, 1)
        .unwrap();
    c.batch_issue_credentials(issuer, &vec![subject, account(101)], schema, 0, 1)
        .unwrap();
    let list = c.get_subject_credentials(subject);
    assert_eq!(list, vec![1, 2, 3]);
    let identity = c.get_identity(subject).unwrap();
    assert_eq!(identity.credential_count as usize, list.len());
    assert!(identity.reputation_score <= 1000);
}

#[test]
fn each_id_is_listed_once_under_its_subject() {
    let (mut c, _, issuer, schema) = registry();
    let subjects = [account(100), account(101), account(102)];
    for (k, s) in subjects.iter().enumerate() {
        for _ in 0..=k {
            c.issue_credential(issuer, *s, schema, 0, 1).unwrap();
        }
    }
    let n = c.get_credential_count();
    assert_eq!(n, 6);
    for id in 1..=n {
        let owner = c.get_credential(id).unwrap().subject;
        let mut occurrences = 0;
        for s in subjects.iter() {
            let hits = c.get_subject_credentials(*s).iter().filter(|x| **x == id).count();
            if *s == owner {
                assert_eq!(hits, 1);
            } else {
                assert_eq!(hits, 0);
            }
            occurrences += hits;
        }
        assert_eq!(occurrences, 1);
        assert_eq!(c.get_credential(id).unwrap().id, id);
    }
    assert!(c.get_credential(n + 1).is_err());
    assert!(c.get_credential(0).is_err());
}

#[test]
fn names_are_kept_as_raw_bytes() {
    let (mut c, _admin, issuer, _kyc) = registry();
    let name = vec![0xffu8, 0x00, 0xfe];
    let description = vec![0xc3u8];
    let id = c.register_schema(issuer, name.clone(), description.clone()).unwrap();
    let schema = c.get_schema(id).unwrap();
    assert_eq!(schema.name, name);
    assert_eq!(schema.description, description);
    assert_eq!(schema.id, id);
}
