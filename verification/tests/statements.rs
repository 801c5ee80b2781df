use parachain_validation::ed25519::Pair;
use parachain_validation::primitives::CandidateReceipt;
use parachain_validation::statement::statement_message;
use parachain_validation::{check_statement, sign_table_statement, GenericStatement, Statement};
use parity_scale_codec::Encode;
use sp_core::Pair as _;
use sp_keyring::Ed25519Keyring;

fn pair_of(who: Ed25519Keyring) -> Pair {
    Pair::from_seed(who.pair().seed())
}

fn receipt(bytes: &[u8]) -> CandidateReceipt {
    CandidateReceipt { parachain_index: 7, encoded: bytes.to_vec() }
}

#[test]
fn sign_and_check_statement() {
    let statement: Statement = GenericStatement::Valid([1; 32].into());
    let parent_hash = [2; 32].into();

    let sig = sign_table_statement(&statement, &pair_of(Ed25519Keyring::Alice), &parent_hash);

    assert!(check_statement(
        &statement,
        &sig,
        Ed25519Keyring::Alice.to_raw_public(),
        &parent_hash
    ));
    assert!(!check_statement(
        &statement,
        &sig,
        Ed25519Keyring::Alice.to_raw_public(),
        &[0xff; 32].into()
    ));
    assert!(!check_statement(
        &statement,
        &sig,
        Ed25519Keyring::Bob.to_raw_public(),
        &parent_hash
    ));
}

#[test]
fn every_kind_of_statement_checks_after_signing() {
    let parent_hash = [9u8; 32];
    let key = pair_of(Ed25519Keyring::Charlie);
    let statements: Vec<Statement> = vec![
        GenericStatement::Candidate(receipt(&[1, 2, 3])),
        GenericStatement::Valid([4; 32]),
        GenericStatement::Invalid([4; 32]),
    ];
    for (i, signed) in statements.iter().enumerate() {
        let sig = sign_table_statement(signed, &key, &parent_hash);
        for (j, claimed) in statements.iter().enumerate() {
            assert_eq!(check_statement(claimed, &sig, key.public(), &parent_hash), i == j);
        }
    }
}

#[test]
fn message_is_encoded_statement_then_parent_hash() {
    let parent_hash = [2u8; 32];

    let valid = statement_message(&GenericStatement::Valid([1; 32]), &parent_hash);
    let mut expected = vec![2u8];
    expected.extend([1u8; 32]);
    expected.extend([2u8; 32]);
    assert_eq!(valid, expected);
    assert_eq!(valid, (2u8, [1u8; 32], [2u8; 32]).encode());

    let invalid = statement_message(&GenericStatement::Invalid([1; 32]), &parent_hash);
    expected[0] = 3;
    assert_eq!(invalid, expected);

    let candidate = statement_message(
        &GenericStatement::Candidate(receipt(&[0xaa, 0xbb])),
        &parent_hash,
    );
    let mut expected = vec![1u8, 0xaa, 0xbb];
    expected.extend([2u8; 32]);
    assert_eq!(candidate, expected);

    let empty = statement_message(&GenericStatement::Candidate(receipt(&[])), &parent_hash);
    assert_eq!(empty.len(), 33);
}

#[test]
fn signature_is_the_key_pairs_own() {
    let statement: Statement = GenericStatement::Invalid([5; 32]);
    let parent_hash = [6u8; 32];
    let message = statement_message(&statement, &parent_hash);
    let sig = sign_table_statement(&statement, &pair_of(Ed25519Keyring::Dave), &parent_hash);
    assert_eq!(sig, Ed25519Keyring::Dave.pair().sign(&message).0);
}

#[test]
fn public_key_of_a_known_seed() {
    let seed = [
        0x9d, 0x61, 0xb1, 0x9d, 0xef, 0xfd, 0x5a, 0x60, 0xba, 0x84, 0x4a, 0xf4, 0x92, 0xec, 0x2c,
        0xc4, 0x44, 0x49, 0xc5, 0x69, 0x7b, 0x32, 0x69, 0x19, 0x70, 0x3b, 0xac, 0x03, 0x1c, 0xae,
        0x7f, 0x60,
    ];
    let public = [
        0xd7, 0x5a, 0x98, 0x01, 0x82, 0xb1, 0x0a, 0xb7, 0xd5, 0x4b, 0xfe, 0xd3, 0xc9, 0x64, 0x07,
        0x3a, 0x0e, 0xe1, 0x72, 0xf3, 0xda, 0xa6, 0x23, 0x25, 0xaf, 0x02, 0x1a, 0x68, 0xf7, 0x07,
        0x51, 0x1a,
    ];
    assert_eq!(Pair::from_seed(seed).public(), public);
}

#[test]
fn unparsable_signer_is_refused() {
    let statement: Statement = GenericStatement::Valid([1; 32]);
    let sig = sign_table_statement(&statement, &pair_of(Ed25519Keyring::Alice), &[0; 32]);
    assert!(!check_statement(&statement, &sig, [2; 32], &[0; 32]));
    assert!(!check_statement(
        &statement,
        &[0xff; 64],
        Ed25519Keyring::Alice.to_raw_public(),
        &[0; 32]
    ));
}

#[test]
fn copies_of_statements_are_equal() {
    let statements: Vec<Statement> = vec![
        GenericStatement::Candidate(receipt(&[1, 2, 3])),
        GenericStatement::Valid([4; 32]),
        GenericStatement::Invalid([4; 32]),
    ];
    for statement in &statements {
        assert_eq!(&statement.clone(), statement);
    }
}
