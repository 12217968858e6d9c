use lrp::types::{Config, CurrencyId, Error, Event, PaymentStatus};
use lrp::World;

const ALICE: u64 = 1;
const BOB: u64 = 2;
const CHARLIE: u64 = 3;

const PENDING_PAYMENT_WAITING_TIME: u64 = 172800000;
const FULFILLED_WAITING_TIME: u64 = 2592000000;

const INIT_TIMESTAMP: u64 = 1_000;
const BLOCK_TIME: u64 = 6_000;

fn test_config() -> Config {
    Config {
        bonding_amount: 100_000_000_000_000,
        evaluator_bonding: 100,
        initial_credibility: 60,
        max_credibility: 100,
        minimum_self_stake: 100,
        activation_stake_amount: 1000,
        undelegate_time: 172800000,
        required_credibility: 30,
        pending_payment_waiting_time: PENDING_PAYMENT_WAITING_TIME,
        fulfilled_payment_waiting_time: FULFILLED_WAITING_TIME,
        dispute_finalizing_time: 10000,
        dispute_fee: 100,
        credibility_gain: 1,
        credibility_loss: 10,
        native_token_deposit: 1000,
    }
}

fn new_world() -> World {
    let mut w = World::new(test_config());
    w.ledger.deposit(CurrencyId::Native, ALICE, 1_000).unwrap();
    w.ledger.deposit(CurrencyId::Native, BOB, 1_000).unwrap();
    w
}

fn run_to_block_number(w: &mut World, block: &mut u64, target: u64) {
    while *block < target {
        *block += 1;
        w.set_timestamp(*block * BLOCK_TIME + INIT_TIMESTAMP);
        w.evaluate_pending_payments();
        w.evaluate_full_filled_payments();
    }
}

#[test]
fn create_payment_works() {
    let mut w = new_world();

    assert_eq!(
        w.create_payment(ALICE, BOB, 1001, CurrencyId::Native, b"".to_vec(), b"".to_vec()),
        Err(Error::InsufficientBalance),
    );

    assert!(w
        .create_payment(ALICE, BOB, 100, CurrencyId::Native, b"".to_vec(), b"".to_vec())
        .is_ok());

    let payment_hashes = w.payments_owned_by(ALICE);
    assert_eq!(payment_hashes.len(), 1);
    assert_eq!(
        w.last_event().unwrap(),
        &Event::PaymentCreated {
            payment_hash: payment_hashes[0],
            payer: ALICE,
            payee: BOB,
            currency_id: CurrencyId::Native,
            amount: 100,
        },
    );
    assert_eq!(w.ledger.reserved_balance(CurrencyId::Native, ALICE), 100);
    assert_eq!(w.ledger.free_balance(CurrencyId::Native, ALICE), 900);

    let payment = w.payment(payment_hashes[0]).unwrap();
    assert_eq!(payment.payer, ALICE);
    assert_eq!(payment.payee, BOB);
    assert_eq!(payment.amount, 100);
    assert_eq!(payment.currency_id, CurrencyId::Native);
    assert_eq!(payment.description, b"".to_vec());
    assert_eq!(payment.status, PaymentStatus::Pending);
}

#[test]
fn accept_payment_works() {
    let mut w = new_world();

    assert!(w
        .create_payment(ALICE, BOB, 100, CurrencyId::Native, b"".to_vec(), b"".to_vec())
        .is_ok());
    let payment_hashes = w.payments_owned_by(ALICE);

    assert_eq!(payment_hashes.len(), 1);
    assert_eq!(w.accept_payment(CHARLIE, payment_hashes[0]), Err(Error::AccessDenied));

    assert!(w.accept_payment(BOB, payment_hashes[0]).is_ok());
    assert_eq!(
        w.last_event().unwrap(),
        &Event::PaymentAccepted {
            payment_hash: payment_hashes[0],
            payer: ALICE,
            payee: BOB,
            currency_id: CurrencyId::Native,
            amount: 100,
        },
    );

    let payment = w.payment(payment_hashes[0]).unwrap();
    assert_eq!(payment.status, PaymentStatus::Accepted);
}

#[test]
fn reject_payment_works() {
    let mut w = new_world();

    assert!(w
        .create_payment(ALICE, BOB, 100, CurrencyId::Native, b"".to_vec(), b"".to_vec())
        .is_ok());
    let payment_hashes = w.payments_owned_by(ALICE);

    assert_eq!(payment_hashes.len(), 1);
    assert_eq!(w.reject_payment(CHARLIE, payment_hashes[0]), Err(Error::AccessDenied));
    assert_eq!(w.reject_payment(ALICE, payment_hashes[0]), Err(Error::AccessDenied));

    assert!(w.reject_payment(BOB, payment_hashes[0]).is_ok());
    assert_eq!(
        w.last_event().unwrap(),
        &Event::PaymentRejected {
            payment_hash: payment_hashes[0],
            payer: ALICE,
            payee: BOB,
            currency_id: CurrencyId::Native,
            amount: 100,
        },
    );

    let payment = w.payment(payment_hashes[0]).unwrap();
    assert_eq!(payment.status, PaymentStatus::Rejected);

    assert_eq!(w.ledger.reserved_balance(CurrencyId::Native, ALICE), 0);
    assert_eq!(w.ledger.free_balance(CurrencyId::Native, ALICE), 1000);
}

#[test]
fn auto_expire_payment_by_offchain_worker_works() {
    let mut w = new_world();
    let mut block: u64 = 1;

    assert!(w
        .create_payment(ALICE, BOB, 100, CurrencyId::Native, b"".to_vec(), b"".to_vec())
        .is_ok());

    run_to_block_number(&mut w, &mut block, PENDING_PAYMENT_WAITING_TIME / BLOCK_TIME);

    let payment_hash = w.payments_owned_by(ALICE)[0];
    let payment = w.payment(payment_hash).unwrap();

    assert_eq!(
        w.last_event().unwrap(),
        &Event::PaymentExpired {
            payment_hash,
            payer: ALICE,
            payee: BOB,
            currency_id: CurrencyId::Native,
            amount: 100,
        },
    );
    assert_eq!(payment.status, PaymentStatus::Expired);
    assert_eq!(w.ledger.reserved_balance(CurrencyId::Native, ALICE), 0);
    assert_eq!(w.ledger.free_balance(CurrencyId::Native, ALICE), 1_000);
    assert_eq!(w.ledger.free_balance(CurrencyId::Native, BOB), 1_000);
}

#[test]
fn cancel_payment_works_with_payer() {
    let mut w = new_world();

    assert!(w
        .create_payment(ALICE, BOB, 100, CurrencyId::Native, b"".to_vec(), b"".to_vec())
        .is_ok());
    let payment_hash = w.payments_owned_by(ALICE)[0];

    assert_eq!(w.cancel_payment(CHARLIE, payment_hash), Err(Error::AccessDenied));

    assert!(w.cancel_payment(ALICE, payment_hash).is_ok());
    assert_eq!(
        w.last_event().unwrap(),
        &Event::PaymentCancelled {
            payment_hash,
            payer: ALICE,
            payee: BOB,
            currency_id: CurrencyId::Native,
            amount: 100,
        },
    );
    assert_eq!(w.ledger.reserved_balance(CurrencyId::Native, ALICE), 0);
    assert_eq!(w.ledger.free_balance(CurrencyId::Native, ALICE), 1000);
}

#[test]
fn cancel_payment_only_works_with_payee_if_payment_accepted() {
    let mut w = new_world();

    assert!(w
        .create_payment(ALICE, BOB, 100, CurrencyId::Native, b"".to_vec(), b"".to_vec())
        .is_ok());
    let payment_hash = w.payments_owned_by(ALICE)[0];
    assert!(w.accept_payment(BOB, payment_hash).is_ok());
    assert_eq!(w.cancel_payment(ALICE, payment_hash), Err(Error::AccessDenied));
    assert_eq!(w.ledger.reserved_balance(CurrencyId::Native, ALICE), 100);
    assert_eq!(w.ledger.free_balance(CurrencyId::Native, ALICE), 900);

    assert!(w.cancel_payment(BOB, payment_hash).is_ok());
    assert_eq!(
        w.last_event().unwrap(),
        &Event::PaymentCancelled {
            payment_hash,
            payer: ALICE,
            payee: BOB,
            currency_id: CurrencyId::Native,
            amount: 100,
        },
    );
    assert_eq!(w.ledger.reserved_balance(CurrencyId::Native, ALICE), 0);
    assert_eq!(w.ledger.free_balance(CurrencyId::Native, ALICE), 1000);
}

#[test]
fn full_fill_payment_works() {
    let mut w = new_world();

    assert!(w
        .create_payment(ALICE, BOB, 100, CurrencyId::Native, b"".to_vec(), b"".to_vec())
        .is_ok());
    let payment_hash = w.payments_owned_by(ALICE)[0];
    assert!(w.accept_payment(BOB, payment_hash).is_ok());

    assert_eq!(w.full_fill_payment(CHARLIE, payment_hash), Err(Error::AccessDenied));

    assert!(w.full_fill_payment(BOB, payment_hash).is_ok());
    assert_eq!(
        w.last_event().unwrap(),
        &Event::PaymentFulfilled {
            payment_hash,
            payer: ALICE,
            payee: BOB,
            currency_id: CurrencyId::Native,
            amount: 100,
        },
    );

    let payment = w.payment(payment_hash).unwrap();
    assert_eq!(payment.status, PaymentStatus::Fulfilled);
}

#[test]
fn complete_payment_works() {
    let mut w = new_world();

    assert!(w
        .create_payment(ALICE, BOB, 100, CurrencyId::Native, b"".to_vec(), b"".to_vec())
        .is_ok());
    let payment_hash = w.payments_owned_by(ALICE)[0];

    assert!(w.accept_payment(BOB, payment_hash).is_ok());
    assert!(w.full_fill_payment(BOB, payment_hash).is_ok());

    assert_eq!(w.complete_payment(CHARLIE, payment_hash), Err(Error::AccessDenied));
    assert_eq!(w.complete_payment(BOB, payment_hash), Err(Error::AccessDenied));

    assert!(w.complete_payment(ALICE, payment_hash).is_ok());
    assert_eq!(
        w.last_event().unwrap(),
        &Event::PaymentCompleted {
            payment_hash,
            payer: ALICE,
            payee: BOB,
            currency_id: CurrencyId::Native,
            amount: 100,
        },
    );
    assert_eq!(w.ledger.reserved_balance(CurrencyId::Native, ALICE), 0);
    assert_eq!(w.ledger.free_balance(CurrencyId::Native, ALICE), 900);
    assert_eq!(w.ledger.free_balance(CurrencyId::Native, BOB), 1100);
}

#[test]
fn auto_complete_payment_by_offchain_worker_works() {
    let mut w = new_world();
    let mut block: u64 = 1;

    assert!(w
        .create_payment(ALICE, BOB, 100, CurrencyId::Native, b"".to_vec(), b"".to_vec())
        .is_ok());
    let payment_hash = w.payments_owned_by(ALICE)[0];

    assert!(w.accept_payment(BOB, payment_hash).is_ok());
    assert!(w.full_fill_payment(BOB, payment_hash).is_ok());

    run_to_block_number(&mut w, &mut block, FULFILLED_WAITING_TIME / BLOCK_TIME);

    let payment_hash = w.payments_owned_by(ALICE)[0];
    let payment = w.payment(payment_hash).unwrap();

    assert_eq!(payment.status, PaymentStatus::Completed);
    assert_eq!(
        w.last_event().unwrap(),
        &Event::PaymentCompleted {
            payment_hash,
            payer: ALICE,
            payee: BOB,
            currency_id: CurrencyId::Native,
            amount: 100,
        },
    );
    assert_eq!(w.ledger.reserved_balance(CurrencyId::Native, ALICE), 0);
    assert_eq!(w.ledger.free_balance(CurrencyId::Native, ALICE), 900);
    assert_eq!(w.ledger.free_balance(CurrencyId::Native, BOB), 1100);
}
