use lrp::currencies::currency_key_of;
use lrp::types::{Config, CurrencyId, DisputeStatus, Error, IdentityType, Judgment, PaymentStatus, ResolverStatus};
use lrp::World;

const ALICE: u64 = 1;
const BOB: u64 = 2;
const RESOLVER_1: u64 = 4;

const INIT_TIMESTAMP: u64 = 1_000;
const BLOCK_TIME: u64 = 6_000;

fn test_config() -> Config {
    Config {
        bonding_amount: 100,
        evaluator_bonding: 100,
        initial_credibility: 60,
        max_credibility: 100,
        minimum_self_stake: 100,
        activation_stake_amount: 1000,
        undelegate_time: 172800000,
        required_credibility: 30,
        pending_payment_waiting_time: 172800000,
        fulfilled_payment_waiting_time: 2592000000,
        dispute_finalizing_time: 10000,
        dispute_fee: 100,
        credibility_gain: 1,
        credibility_loss: 10,
        native_token_deposit: 1000,
    }
}

fn new_world() -> World {
    let mut w = World::new(test_config());
    w.ledger.deposit(CurrencyId::Native, ALICE, 1_000).unwrap();
    w.ledger.deposit(CurrencyId::Native, BOB, 1_000).unwrap();
    w.ledger.deposit(CurrencyId::Native, RESOLVER_1, 2_000).unwrap();
    w
}

fn run_blocks(w: &mut World, block: &mut u64, n: u64) {
    for _ in 0..=n {
        *block += 1;
        w.set_timestamp(*block * BLOCK_TIME + INIT_TIMESTAMP);
        w.evaluate_pending_payments();
        w.evaluate_full_filled_payments();
        w.release_pending_funds();
        w.process_finalizing_disputes();
    }
}

#[test]
fn escrow_is_reserved_until_a_terminal_state() {
    let mut w = new_world();

    assert!(w
        .create_payment(ALICE, BOB, 100, CurrencyId::Native, b"".to_vec(), b"".to_vec())
        .is_ok());
    let h = w.payments_owned_by(ALICE)[0];
    assert!(w.ledger.reserved_balance(CurrencyId::Native, ALICE) >= 100);

    assert!(w.accept_payment(BOB, h).is_ok());
    assert!(w.ledger.reserved_balance(CurrencyId::Native, ALICE) >= 100);

    assert!(w.full_fill_payment(BOB, h).is_ok());
    assert!(w.ledger.reserved_balance(CurrencyId::Native, ALICE) >= 100);

    assert!(w.complete_payment(ALICE, h).is_ok());
    assert_eq!(w.ledger.reserved_balance(CurrencyId::Native, ALICE), 0);
    assert_eq!(w.payment(h).unwrap().status, PaymentStatus::Completed);
}

#[test]
fn queue_membership_follows_payment_status() {
    let mut w = new_world();

    assert!(w
        .create_payment(ALICE, BOB, 100, CurrencyId::Native, b"".to_vec(), b"".to_vec())
        .is_ok());
    let h = w.payments_owned_by(ALICE)[0];
    assert!(w.pending_payment_hashes.contains(&h));
    assert!(!w.fulfilled_payment_hashes.contains(&h));

    assert!(w.accept_payment(BOB, h).is_ok());
    assert!(!w.pending_payment_hashes.contains(&h));

    assert!(w.full_fill_payment(BOB, h).is_ok());
    assert!(w.fulfilled_payment_hashes.contains(&h));

    assert!(w.dispute_payment(ALICE, h).is_ok());
    assert!(!w.fulfilled_payment_hashes.contains(&h));
    assert_eq!(w.payment(h).unwrap().status, PaymentStatus::Disputed);
}

#[test]
fn resolver_total_stake_is_self_stake_plus_delegations() {
    let mut w = new_world();

    assert!(w
        .create_identity(RESOLVER_1, b"Resolver 1".to_vec(), IdentityType::Individual, vec![])
        .is_ok());
    assert!(w.join_resolvers_network(RESOLVER_1, b"".to_vec(), 500).is_ok());
    assert!(w.delegate(ALICE, RESOLVER_1, 300).is_ok());
    assert!(w.delegate(BOB, RESOLVER_1, 400).is_ok());

    let resolver = w.resolvers.get(RESOLVER_1 as u128).unwrap();
    let delegated: u128 = resolver.delegations.iter().map(|d| d.amount).sum();
    assert_eq!(resolver.total_stake, resolver.self_stake + delegated);
    assert_eq!(resolver.total_stake, 1200);
    assert_eq!(resolver.status, ResolverStatus::Active);
}

#[test]
fn credibility_saturates_at_max_and_clamps_at_zero() {
    let mut w = new_world();

    assert!(w
        .create_identity(ALICE, b"Alice".to_vec(), IdentityType::Individual, vec![])
        .is_ok());
    assert_eq!(w.get_credibility(ALICE).unwrap(), 60);

    assert!(w.increase_credibility(ALICE, 50).is_ok());
    assert_eq!(w.get_credibility(ALICE).unwrap(), 100);

    assert!(w.decrease_credibility(ALICE, 250).is_ok());
    assert_eq!(w.get_credibility(ALICE).unwrap(), 0);
}

#[test]
fn proposing_twice_is_rejected_and_changes_nothing() {
    let mut w = new_world();

    assert!(w
        .create_identity(RESOLVER_1, b"Resolver 1".to_vec(), IdentityType::Individual, vec![])
        .is_ok());
    assert!(w.join_resolvers_network(RESOLVER_1, b"".to_vec(), 1100).is_ok());

    assert!(w
        .create_payment(ALICE, BOB, 100, CurrencyId::Native, b"".to_vec(), b"".to_vec())
        .is_ok());
    let h = w.payments_owned_by(ALICE)[0];
    assert!(w.accept_payment(BOB, h).is_ok());
    assert!(w.create_dispute(ALICE, h, b"".to_vec()).is_ok());
    assert!(w.fight_dispute(BOB, h, b"".to_vec()).is_ok());

    assert!(w
        .propose_outcome(RESOLVER_1, h, Judgment::ReleaseFundToPayee)
        .is_ok());
    assert_eq!(
        w.propose_outcome(RESOLVER_1, h, Judgment::ReleaseFundToPayer),
        Err(Error::AccessDenied),
    );
    let dispute = w.disputes.get(h).unwrap();
    assert_eq!(dispute.judgments, vec![(RESOLVER_1, Judgment::ReleaseFundToPayee)]);
}

#[test]
fn pending_funds_left_after_sweep_are_not_yet_due() {
    let mut w = new_world();
    let mut block: u64 = 1;

    assert!(w
        .create_identity(RESOLVER_1, b"Resolver 1".to_vec(), IdentityType::Individual, vec![])
        .is_ok());
    assert!(w.join_resolvers_network(RESOLVER_1, b"".to_vec(), 500).is_ok());
    assert!(w.delegate(ALICE, RESOLVER_1, 300).is_ok());
    assert!(w.undelegate(ALICE, RESOLVER_1, 100).is_ok());

    run_blocks(&mut w, &mut block, 3);

    for fund in w.pending_funds.iter() {
        assert!(w.now < fund.release_at);
    }
    assert_eq!(w.pending_funds.len(), 1);
}

#[test]
fn currency_round_trip_restores_free_balance() {
    let mut w = new_world();

    let before = w.ledger.free_balance(CurrencyId::Native, ALICE);
    assert!(w
        .create_currency(ALICE, b"Polkadot".to_vec(), b"dot".to_vec(), 12)
        .is_ok());
    assert_eq!(w.ledger.free_balance(CurrencyId::Native, ALICE), before - 100);

    let h = currency_key_of(&b"Polkadot".to_vec(), &b"dot".to_vec(), 12, ALICE);
    assert!(w.remove_currency(ALICE, h).is_ok());
    assert_eq!(w.ledger.free_balance(CurrencyId::Native, ALICE), before);
    assert_eq!(w.ledger.reserved_balance(CurrencyId::Native, ALICE), 0);
}

#[test]
fn dispute_with_one_fight_resolves_for_the_payee() {
    let mut w = new_world();
    let mut block: u64 = 1;

    assert!(w
        .create_identity(RESOLVER_1, b"Resolver 1".to_vec(), IdentityType::Individual, vec![])
        .is_ok());
    assert!(w.join_resolvers_network(RESOLVER_1, b"".to_vec(), 1100).is_ok());

    assert!(w
        .create_payment(ALICE, BOB, 100, CurrencyId::Native, b"".to_vec(), b"".to_vec())
        .is_ok());
    let h = w.payments_owned_by(ALICE)[0];
    assert!(w.accept_payment(BOB, h).is_ok());
    assert!(w.create_dispute(ALICE, h, b"".to_vec()).is_ok());
    assert!(w.fight_dispute(BOB, h, b"".to_vec()).is_ok());
    assert!(w
        .propose_outcome(RESOLVER_1, h, Judgment::ReleaseFundToPayee)
        .is_ok());

    run_blocks(&mut w, &mut block, 3);

    let dispute = w.disputes.get(h).unwrap();
    assert_eq!(dispute.status, DisputeStatus::Resolved);
    assert_eq!(dispute.outcome, Judgment::ReleaseFundToPayee);

    // The escrow moved to the payee, the fight stake came back, and the
    // resolver got its fee from the payer.
    assert_eq!(w.ledger.free_balance(CurrencyId::Native, ALICE), 800);
    assert_eq!(w.ledger.reserved_balance(CurrencyId::Native, ALICE), 0);
    assert_eq!(w.ledger.free_balance(CurrencyId::Native, BOB), 1100);
    assert_eq!(w.ledger.reserved_balance(CurrencyId::Native, BOB), 0);
    assert_eq!(w.ledger.free_balance(CurrencyId::Native, RESOLVER_1), 1000);
}

#[test]
fn escalation_flips_the_expected_outcome() {
    let mut w = new_world();
    let mut block: u64 = 1;

    assert!(w
        .create_identity(RESOLVER_1, b"Resolver 1".to_vec(), IdentityType::Individual, vec![])
        .is_ok());
    assert!(w.join_resolvers_network(RESOLVER_1, b"".to_vec(), 1100).is_ok());

    assert!(w
        .create_payment(ALICE, BOB, 100, CurrencyId::Native, b"".to_vec(), b"".to_vec())
        .is_ok());
    let h = w.payments_owned_by(ALICE)[0];
    assert!(w.accept_payment(BOB, h).is_ok());
    assert!(w.create_dispute(ALICE, h, b"".to_vec()).is_ok());
    assert!(w.fight_dispute(BOB, h, b"".to_vec()).is_ok());
    assert!(w
        .propose_outcome(RESOLVER_1, h, Judgment::ReleaseFundToPayee)
        .is_ok());

    assert!(w.escalate_dispute(ALICE, h).is_ok());
    let dispute = w.disputes.get(h).unwrap();
    assert_eq!(dispute.outcome, Judgment::ReleaseFundToPayer);
    assert_eq!(dispute.fee, 300);

    // Without a subsequent fight, finalization rules for the payer.
    run_blocks(&mut w, &mut block, 3);

    let dispute = w.disputes.get(h).unwrap();
    assert_eq!(dispute.status, DisputeStatus::Resolved);
    assert_eq!(dispute.outcome, Judgment::ReleaseFundToPayer);
    assert_eq!(w.ledger.free_balance(CurrencyId::Native, ALICE), 1000);
    assert_eq!(w.ledger.reserved_balance(CurrencyId::Native, ALICE), 0);
    assert_eq!(w.ledger.free_balance(CurrencyId::Native, BOB), 900);
    assert_eq!(w.ledger.reserved_balance(CurrencyId::Native, BOB), 0);
}

#[test]
fn missing_records_are_reported_as_such() {
    let mut w = new_world();

    assert_eq!(w.accept_payment(BOB, 12345), Err(Error::PaymentNotFound));
    assert_eq!(w.fight_dispute(BOB, 12345, b"".to_vec()), Err(Error::DisputeNotFound));
    assert_eq!(w.update_identity(ALICE, Some(b"A".to_vec()), None), Err(Error::IdentityNotFound));
    assert_eq!(w.request_to_verify(ALICE, vec![0], BOB), Err(Error::EvaluatorNotFound));
}

#[test]
fn status_guards_reject_out_of_order_transitions() {
    let mut w = new_world();

    assert!(w
        .create_payment(ALICE, BOB, 100, CurrencyId::Native, b"".to_vec(), b"".to_vec())
        .is_ok());
    let h = w.payments_owned_by(ALICE)[0];
    assert!(w.accept_payment(BOB, h).is_ok());
    assert_eq!(w.accept_payment(BOB, h), Err(Error::InvalidStatusChange));
    assert_eq!(w.complete_payment(ALICE, h), Err(Error::InvalidStatusChange));

    assert!(w.create_dispute(ALICE, h, b"".to_vec()).is_ok());
    assert_eq!(
        w.fight_dispute(BOB, h, b"".to_vec()),
        Err(Error::NoAnyActiveResolver),
    );
}

#[test]
fn fighting_twice_in_one_round_is_rejected() {
    let mut w = new_world();

    assert!(w
        .create_identity(RESOLVER_1, b"Resolver 1".to_vec(), IdentityType::Individual, vec![])
        .is_ok());
    assert!(w.join_resolvers_network(RESOLVER_1, b"".to_vec(), 1100).is_ok());

    assert!(w
        .create_payment(ALICE, BOB, 100, CurrencyId::Native, b"".to_vec(), b"".to_vec())
        .is_ok());
    let h = w.payments_owned_by(ALICE)[0];
    assert!(w.accept_payment(BOB, h).is_ok());
    assert!(w.create_dispute(ALICE, h, b"".to_vec()).is_ok());
    assert!(w.fight_dispute(BOB, h, b"".to_vec()).is_ok());
    // The dispute is already under evaluation: neither party can act on it.
    assert_eq!(w.escalate_dispute(BOB, h), Err(Error::ActionForOnlyFinalizingDispute));
}

#[test]
fn unaccepted_currencies_are_refused() {
    let mut w = new_world();

    assert!(w.faucet(ALICE, 100, CurrencyId::Registered(7)).is_ok());
    assert_eq!(
        w.create_payment(ALICE, BOB, 50, CurrencyId::Registered(7), b"".to_vec(), b"".to_vec()),
        Err(Error::UnacceptedCurrency),
    );
}

#[test]
fn evaluator_registration_and_requests_are_guarded() {
    let mut w = new_world();

    assert!(w
        .create_evaluator(ALICE, b"Alice".to_vec(), b"About Alice".to_vec(), 10)
        .is_ok());
    assert_eq!(
        w.create_evaluator(ALICE, b"Alice".to_vec(), b"About Alice".to_vec(), 10),
        Err(Error::EvaluatorExisted),
    );

    assert!(w
        .create_identity(BOB, b"Bob".to_vec(), IdentityType::Individual, vec![])
        .is_ok());
    assert_eq!(
        w.verify_data(ALICE, BOB, vec![(0, true)]),
        Err(Error::VerifyRequestNotFound),
    );
}

#[test]
fn undelegating_more_than_delegated_is_invalid() {
    let mut w = new_world();

    assert!(w
        .create_identity(RESOLVER_1, b"Resolver 1".to_vec(), IdentityType::Individual, vec![])
        .is_ok());
    assert!(w.join_resolvers_network(RESOLVER_1, b"".to_vec(), 500).is_ok());
    assert!(w.delegate(ALICE, RESOLVER_1, 200).is_ok());
    assert_eq!(w.undelegate(ALICE, RESOLVER_1, 201), Err(Error::InvalidAmount));
}

#[test]
fn low_credibility_cannot_join_the_network() {
    let mut w = new_world();

    assert!(w
        .create_identity(ALICE, b"Alice".to_vec(), IdentityType::Individual, vec![])
        .is_ok());
    assert!(w.decrease_credibility(ALICE, 40).is_ok());
    assert_eq!(w.get_credibility(ALICE).unwrap(), 20);
    assert_eq!(
        w.join_resolvers_network(ALICE, b"".to_vec(), 300),
        Err(Error::CredibilityTooLow),
    );
}

#[test]
fn minting_past_the_balance_limit_overflows() {
    let mut w = new_world();

    w.ledger.deposit(CurrencyId::Native, 9, u128::MAX).unwrap();
    assert_eq!(w.faucet(9, 1, CurrencyId::Native), Err(Error::Overflow));
}
