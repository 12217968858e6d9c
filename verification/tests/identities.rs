use lrp::types::{Config, CurrencyId, Error, Event, IdentityFieldInput, IdentityType, VerifyMethod};
use lrp::World;

const ALICE: u64 = 1;
const BOB: u64 = 2;
const CHARLIE: u64 = 3;

const EVALUATOR_BONDING: u128 = 100;
const INITIAL_CREDIBILITY: u32 = 60;
const MAX_CREDIBILITY: u32 = 100;

fn test_config() -> Config {
    Config {
        bonding_amount: 100,
        evaluator_bonding: EVALUATOR_BONDING,
        initial_credibility: INITIAL_CREDIBILITY,
        max_credibility: MAX_CREDIBILITY,
        minimum_self_stake: 100,
        activation_stake_amount: 1000,
        undelegate_time: 172800000,
        required_credibility: 30,
        pending_payment_waiting_time: 172800000,
        fulfilled_payment_waiting_time: 2592000000,
        dispute_finalizing_time: 10000,
        dispute_fee: 100,
        credibility_gain: 1,
        credibility_loss: 10,
        native_token_deposit: 1000,
    }
}

fn new_world() -> World {
    let mut w = World::new(test_config());
    w.ledger.deposit(CurrencyId::Native, ALICE, 1_000).unwrap();
    w.ledger.deposit(CurrencyId::Native, BOB, 1_000).unwrap();
    w.ledger.deposit(CurrencyId::Native, CHARLIE, 1_000).unwrap();
    w
}

fn field(name: &str, value: &str, verify_method: VerifyMethod) -> IdentityFieldInput {
    IdentityFieldInput {
        name: name.as_bytes().to_vec(),
        value: value.as_bytes().to_vec(),
        verify_method,
    }
}

#[test]
fn create_identity_works() {
    let mut w = new_world();

    // Test create identity without any data.
    assert!(w
        .create_identity(ALICE, b"Alice".to_vec(), IdentityType::Individual, vec![])
        .is_ok());

    assert_eq!(w.last_event().unwrap(), &Event::IdentityCreated { account_id: ALICE });

    let identity = w.identities.get(ALICE as u128).unwrap();
    assert_eq!(identity.name, b"Alice".to_vec());
    assert_eq!(identity.data.len(), 0);
    assert_eq!(identity.identity_type, IdentityType::Individual);
    assert_eq!(identity.reviews.len(), 0);

    // Test identity just can create one time.
    assert_eq!(
        w.create_identity(ALICE, b"Alice".to_vec(), IdentityType::Individual, vec![]),
        Err(Error::IdentityExisted),
    );

    // Test create identity with valid email and valid domain.
    assert!(w
        .create_identity(
            BOB,
            b"Bob".to_vec(),
            IdentityType::Individual,
            vec![
                field("domain", "atscale.xyz", VerifyMethod::Domain),
                field("email", "hello@atscale.xyz", VerifyMethod::Email),
            ],
        )
        .is_ok());

    let identity = w.identities.get(BOB as u128).unwrap();
    assert_eq!(identity.name, b"Bob".to_vec());
    assert_eq!(identity.identity_type, IdentityType::Individual);
    assert_eq!(identity.reviews.len(), 0);
    assert_eq!(identity.data.len(), 2);
    assert_eq!(identity.data[0].name, b"domain".to_vec());
    assert_eq!(identity.data[0].value, b"atscale.xyz".to_vec());
    assert_eq!(identity.data[1].name, b"email".to_vec());
    assert_eq!(identity.data[1].value, b"hello@atscale.xyz".to_vec());

    // Test domain validation
    assert_eq!(
        w.create_identity(
            CHARLIE,
            b"Charlie".to_vec(),
            IdentityType::Individual,
            vec![field("domain", "notadomain", VerifyMethod::Domain)],
        ),
        Err(Error::InvalidDomain),
    );

    // Test email validation
    assert_eq!(
        w.create_identity(
            CHARLIE,
            b"Charlie".to_vec(),
            IdentityType::Individual,
            vec![field("email", "notanemail", VerifyMethod::Email)],
        ),
        Err(Error::InvalidEmail),
    );
}

#[test]
fn update_identity_works() {
    let mut w = new_world();

    // Test update identity name
    assert!(w
        .create_identity(ALICE, b"Alice".to_vec(), IdentityType::Individual, vec![])
        .is_ok());

    assert!(w.update_identity(ALICE, Some(b"NewAlice".to_vec()), None).is_ok());
    assert_eq!(w.last_event().unwrap(), &Event::IdentityUpdated { account_id: ALICE });

    let identity = w.identities.get(ALICE as u128).unwrap();
    assert_eq!(identity.name, b"NewAlice".to_vec());

    // Test update identity data
    assert!(w
        .update_identity(
            ALICE,
            None,
            Some(vec![field("email", "hello@atscale.xyz", VerifyMethod::Email)]),
        )
        .is_ok());

    // Test update identity data with invalid email
    assert_eq!(
        w.update_identity(
            ALICE,
            None,
            Some(vec![field("email", "invalid_email", VerifyMethod::Email)]),
        ),
        Err(Error::InvalidEmail),
    );
}

#[test]
fn update_identity_data_works() {
    let mut w = new_world();

    assert!(w
        .create_identity(
            ALICE,
            b"Alice".to_vec(),
            IdentityType::Individual,
            vec![field("email", "foo@atscale.xyz", VerifyMethod::Email)],
        )
        .is_ok());

    // Test add update identity data
    assert!(w
        .update_identity_data(ALICE, 0, field("email", "hello@atscale.xyz", VerifyMethod::Email))
        .is_ok());

    let identity = w.identities.get(ALICE as u128).unwrap();
    assert_eq!(identity.data.len(), 1);
    assert_eq!(identity.data[0].name, b"email".to_vec());
    assert_eq!(identity.data[0].value, b"hello@atscale.xyz".to_vec());

    assert_eq!(w.last_event().unwrap(), &Event::IdentityUpdated { account_id: ALICE });
}

#[test]
fn add_identity_data_works() {
    let mut w = new_world();

    assert!(w
        .create_identity(ALICE, b"Alice".to_vec(), IdentityType::Individual, vec![])
        .is_ok());

    // Test add valid identity data
    assert!(w
        .add_identity_data(ALICE, field("email", "hello@atscale.xyz", VerifyMethod::Email))
        .is_ok());

    assert_eq!(w.last_event().unwrap(), &Event::IdentityUpdated { account_id: ALICE });

    // Test add invalid domain.
    assert_eq!(
        w.add_identity_data(ALICE, field("domain", "invalid_domain", VerifyMethod::Domain)),
        Err(Error::InvalidDomain),
    );
}

#[test]
fn add_identity_review_works() {
    let mut w = new_world();

    assert!(w
        .create_identity(ALICE, b"Alice".to_vec(), IdentityType::Individual, vec![])
        .is_ok());

    assert!(w.review_identity(BOB, ALICE, b"Good".to_vec()).is_ok());

    let identity = w.identities.get(ALICE as u128).unwrap();
    assert_eq!(identity.reviews.len(), 1);
    assert_eq!(identity.reviews[0].reviewer, BOB);

    assert_eq!(
        w.review_identity(BOB, ALICE, b"Good".to_vec()),
        Err(Error::CanOnlyReviewOnce),
    );
}

#[test]
fn create_evaluator_works() {
    let mut w = new_world();

    assert!(w
        .create_evaluator(ALICE, b"Alice".to_vec(), b"About Alice".to_vec(), 10)
        .is_ok());
    assert_eq!(w.ledger.reserved_balance(CurrencyId::Native, ALICE), 100);
    let evaluator = w.evaluators.get(ALICE as u128).unwrap();
    assert_eq!(evaluator.name, b"Alice".to_vec());
    assert_eq!(evaluator.about, b"About Alice".to_vec());
    assert_eq!(evaluator.rate, 10);
}

#[test]
fn create_verify_request_works() {
    let mut w = new_world();

    assert!(w
        .create_evaluator(ALICE, b"Alice".to_vec(), b"About Alice".to_vec(), 10)
        .is_ok());

    assert!(w
        .create_identity(
            BOB,
            b"BOB".to_vec(),
            IdentityType::Individual,
            vec![field("field_a", "value_a", VerifyMethod::Evaluator)],
        )
        .is_ok());

    assert!(w.request_to_verify(BOB, vec![0], ALICE).is_ok());
    assert_eq!(w.ledger.reserved_balance(CurrencyId::Native, ALICE), 100);
    assert_eq!(w.ledger.free_balance(CurrencyId::Native, ALICE), 910);
    assert_eq!(w.ledger.free_balance(CurrencyId::Native, BOB), 990);

    let verify_requests = w.verify_data_requests.get(ALICE as u128).unwrap();
    assert_eq!(verify_requests.len(), 1);
}

#[test]
fn verify_data_works() {
    let mut w = new_world();

    assert!(w
        .create_evaluator(ALICE, b"Alice".to_vec(), b"About Alice".to_vec(), 10)
        .is_ok());

    assert!(w
        .create_identity(
            BOB,
            b"BOB".to_vec(),
            IdentityType::Individual,
            vec![
                field("field_a", "value_a", VerifyMethod::Evaluator),
                field("field_b", "value_b", VerifyMethod::Evaluator),
                field("field_c", "value_c", VerifyMethod::Evaluator),
            ],
        )
        .is_ok());

    assert!(w.request_to_verify(BOB, vec![0, 2], ALICE).is_ok());
    assert_eq!(w.ledger.free_balance(CurrencyId::Native, ALICE), 920);
    assert_eq!(w.ledger.free_balance(CurrencyId::Native, BOB), 980);

    assert_eq!(
        w.verify_data(ALICE, BOB, vec![(1, true)]),
        Err(Error::InvalidTranscript),
    );

    assert!(w.verify_data(ALICE, BOB, vec![(0, true), (2, true)]).is_ok());

    let verify_requests = w.verify_data_requests.get(ALICE as u128).unwrap();
    assert_eq!(verify_requests.len(), 0);

    let identity = w.identities.get(BOB as u128).unwrap();
    assert_eq!(identity.data[0].is_verified, true);
    assert_eq!(identity.data[0].verify_by, Some(ALICE));
    assert_eq!(identity.data[2].is_verified, true);
    assert_eq!(identity.data[2].verify_by, Some(ALICE));
}
