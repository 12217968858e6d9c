use lrp::types::{Config, CurrencyId, DisputeStatus, Error, IdentityType, Judgment};
use lrp::World;

const ALICE: u64 = 1;
const BOB: u64 = 2;
const RESOLVER_1: u64 = 4;
const RESOLVER_2: u64 = 5;
const RESOLVER_3: u64 = 6;

const DISPUTE_FINALIZING_TIME: u64 = 10_000;

const INIT_TIMESTAMP: u64 = 1_000;
const BLOCK_TIME: u64 = 6_000;

fn test_config() -> Config {
    Config {
        bonding_amount: 100_000_000_000_000,
        evaluator_bonding: 1000,
        initial_credibility: 60,
        max_credibility: 100,
        minimum_self_stake: 100,
        activation_stake_amount: 1000,
        undelegate_time: 172800000,
        required_credibility: 30,
        pending_payment_waiting_time: 172800000,
        fulfilled_payment_waiting_time: 2592000000,
        dispute_finalizing_time: DISPUTE_FINALIZING_TIME,
        dispute_fee: 100,
        credibility_gain: 1,
        credibility_loss: 10,
        native_token_deposit: 1000,
    }
}

fn new_world() -> World {
    let mut w = World::new(test_config());
    w.ledger.deposit(CurrencyId::Native, ALICE, 1_000).unwrap();
    w.ledger.deposit(CurrencyId::Native, BOB, 1_000).unwrap();
    w.ledger.deposit(CurrencyId::Native, RESOLVER_1, 2_000).unwrap();
    w.ledger.deposit(CurrencyId::Native, RESOLVER_2, 2_000).unwrap();
    w.ledger.deposit(CurrencyId::Native, RESOLVER_3, 2_000).unwrap();
    w
}

fn join_resolver(w: &mut World, account: u64, name: &str) {
    assert!(w
        .create_identity(account, name.as_bytes().to_vec(), IdentityType::Individual, vec![])
        .is_ok());
    assert!(w.join_resolvers_network(account, b"".to_vec(), 1100).is_ok());
}

fn run_blocks(w: &mut World, block: &mut u64, n: u64) {
    for _ in 0..=n {
        *block += 1;
        w.set_timestamp(*block * BLOCK_TIME + INIT_TIMESTAMP);
        w.evaluate_pending_payments();
        w.evaluate_full_filled_payments();
        w.release_pending_funds();
        w.process_finalizing_disputes();
    }
}

fn accepted_payment(w: &mut World, amount: u128) -> u128 {
    assert!(w
        .create_payment(ALICE, BOB, amount, CurrencyId::Native, b"".to_vec(), b"".to_vec())
        .is_ok());
    let payment_hash = w.payments_owned_by(ALICE)[0];
    assert!(w.accept_payment(BOB, payment_hash).is_ok());
    payment_hash
}

#[test]
fn create_dispute_works() {
    let mut w = new_world();

    assert!(w
        .create_payment(ALICE, BOB, 100, CurrencyId::Native, b"".to_vec(), b"".to_vec())
        .is_ok());
    let payment_hash = w.payments_owned_by(ALICE)[0];

    assert_eq!(
        w.create_dispute(ALICE, payment_hash, b"".to_vec()),
        Err(Error::DisputeNotAccepted),
    );

    assert!(w.accept_payment(BOB, payment_hash).is_ok());

    assert!(w.create_dispute(ALICE, payment_hash, b"".to_vec()).is_ok());

    assert_eq!(w.ledger.reserved_balance(CurrencyId::Native, ALICE), 200);
    assert_eq!(w.ledger.free_balance(CurrencyId::Native, ALICE), 800);

    let dispute = w.disputes.get(payment_hash).unwrap();
    assert_eq!(dispute.payment_hash, payment_hash);
    assert_eq!(dispute.status, DisputeStatus::Finalizing);
    assert!(dispute.resolvers.is_empty());
    assert!(dispute.judgments.is_empty());
    assert_eq!(dispute.outcome, Judgment::ReleaseFundToPayer);

    assert_eq!(w.finalizing_disputes[0], payment_hash);
}

#[test]
fn fight_dispute_works() {
    let mut w = new_world();

    join_resolver(&mut w, RESOLVER_1, "Resolver 1");

    let payment_hash = accepted_payment(&mut w, 100);
    assert!(w.create_dispute(ALICE, payment_hash, b"".to_vec()).is_ok());
    assert!(w.fight_dispute(BOB, payment_hash, b"".to_vec()).is_ok());

    let dispute = w.disputes.get(payment_hash).unwrap();
    assert_eq!(dispute.payment_hash, payment_hash);
    assert_eq!(dispute.status, DisputeStatus::Evaluating);
    assert_eq!(dispute.resolvers, vec![RESOLVER_1]);
    assert!(dispute.judgments.is_empty());
    assert_eq!(dispute.outcome, Judgment::ReleaseFundToPayer);

    assert_eq!(w.finalizing_disputes.len(), 0);
}

#[test]
fn propose_judgment_works() {
    let mut w = new_world();

    join_resolver(&mut w, RESOLVER_1, "Resolver 1");

    let payment_hash = accepted_payment(&mut w, 100);
    assert!(w.create_dispute(ALICE, payment_hash, b"".to_vec()).is_ok());
    assert!(w.fight_dispute(BOB, payment_hash, b"".to_vec()).is_ok());
    assert!(w
        .propose_outcome(RESOLVER_1, payment_hash, Judgment::ReleaseFundToPayee)
        .is_ok());

    let dispute = w.disputes.get(payment_hash).unwrap();
    assert_eq!(dispute.status, DisputeStatus::Finalizing);
    assert_eq!(dispute.resolvers, vec![RESOLVER_1]);
    assert_eq!(dispute.judgments, vec![(RESOLVER_1, Judgment::ReleaseFundToPayee)]);
    assert_eq!(dispute.outcome, Judgment::ReleaseFundToPayee);
}

#[test]
fn escalate_dispute_works() {
    let mut w = new_world();

    join_resolver(&mut w, RESOLVER_1, "Resolver 1");

    let payment_hash = accepted_payment(&mut w, 100);
    assert!(w.create_dispute(ALICE, payment_hash, b"".to_vec()).is_ok());
    assert!(w.fight_dispute(BOB, payment_hash, b"".to_vec()).is_ok());
    assert!(w
        .propose_outcome(RESOLVER_1, payment_hash, Judgment::ReleaseFundToPayee)
        .is_ok());
    assert!(w.escalate_dispute(ALICE, payment_hash).is_ok());

    let dispute = w.disputes.get(payment_hash).unwrap();
    assert_eq!(dispute.status, DisputeStatus::Finalizing);
    assert_eq!(dispute.outcome, Judgment::ReleaseFundToPayer);
}

#[test]
fn fight_an_escalated_dispute_works() {
    let mut w = new_world();

    join_resolver(&mut w, RESOLVER_1, "Resolver 1");
    join_resolver(&mut w, RESOLVER_2, "Resolver 2");
    join_resolver(&mut w, RESOLVER_3, "Resolver 3");

    // Simulate escalate dispute
    let payment_hash = accepted_payment(&mut w, 100);
    assert!(w.create_dispute(ALICE, payment_hash, b"".to_vec()).is_ok());
    assert!(w.fight_dispute(BOB, payment_hash, b"".to_vec()).is_ok());
    assert!(w
        .propose_outcome(RESOLVER_1, payment_hash, Judgment::ReleaseFundToPayee)
        .is_ok());
    assert!(w.escalate_dispute(ALICE, payment_hash).is_ok());
    assert!(w.fight_dispute(BOB, payment_hash, b"".to_vec()).is_ok());

    let dispute = w.disputes.get(payment_hash).unwrap();
    assert_eq!(dispute.status, DisputeStatus::Evaluating);
    assert_eq!(dispute.resolvers.len(), 3);
    assert_eq!(dispute.judgments, vec![(RESOLVER_1, Judgment::ReleaseFundToPayee)]);
    assert_eq!(dispute.outcome, Judgment::ReleaseFundToPayer);

    assert!(w
        .propose_outcome(RESOLVER_2, payment_hash, Judgment::ReleaseFundToPayee)
        .is_ok());
    assert!(w
        .propose_outcome(RESOLVER_3, payment_hash, Judgment::ReleaseFundToPayee)
        .is_ok());

    let dispute = w.disputes.get(payment_hash).unwrap();
    assert_eq!(dispute.status, DisputeStatus::Finalizing);
    assert_eq!(dispute.resolvers.len(), 3);
    assert_eq!(dispute.judgments.len(), 3);
    assert_eq!(dispute.outcome, Judgment::ReleaseFundToPayee);
}

#[test]
fn finalize_judgment_works() {
    let mut w = new_world();
    let mut block: u64 = 1;

    let payment_hash = accepted_payment(&mut w, 100);
    assert!(w.create_dispute(ALICE, payment_hash, b"".to_vec()).is_ok());

    run_blocks(&mut w, &mut block, DISPUTE_FINALIZING_TIME / BLOCK_TIME + 1);

    assert_eq!(w.finalizing_disputes.len(), 0);

    let dispute = w.disputes.get(payment_hash).unwrap();
    assert_eq!(dispute.status, DisputeStatus::Resolved);

    assert_eq!(w.ledger.reserved_balance(CurrencyId::Native, ALICE), 0);
    assert_eq!(w.ledger.free_balance(CurrencyId::Native, ALICE), 1000);
}

#[test]
fn only_selected_resolver_can_propose_judgment() {
    let mut w = new_world();
    let mut block: u64 = 1;

    join_resolver(&mut w, RESOLVER_1, "Resolver 1");
    join_resolver(&mut w, RESOLVER_2, "Resolver 2");
    join_resolver(&mut w, RESOLVER_3, "Resolver 3");

    // Simulate accepted payment
    let payment_hash = accepted_payment(&mut w, 200);

    // Initial block history for the randomness
    run_blocks(&mut w, &mut block, 32);

    assert!(w.create_dispute(ALICE, payment_hash, b"".to_vec()).is_ok());
    assert!(w.fight_dispute(BOB, payment_hash, b"".to_vec()).is_ok());

    let resolvers = vec![RESOLVER_1, RESOLVER_2, RESOLVER_3];

    let selected = w.disputes.get(payment_hash).unwrap().resolvers[0];

    // Reject account that is not the selected resolver.
    assert_eq!(
        w.propose_outcome(ALICE, payment_hash, Judgment::ReleaseFundToPayer),
        Err(Error::AccessDenied),
    );

    for resolver in resolvers.iter() {
        if selected != *resolver {
            assert_eq!(
                w.propose_outcome(*resolver, payment_hash, Judgment::ReleaseFundToPayer),
                Err(Error::AccessDenied),
            );
        }
    }

    // Only accept the selected resolver to propose judgment
    assert!(w
        .propose_outcome(selected, payment_hash, Judgment::ReleaseFundToPayee)
        .is_ok());
}

#[test]
fn update_credibility_of_dispute_related_parties_works() {
    let mut w = new_world();
    let mut block: u64 = 1;

    // Simulate a dispute with 3 resolvers.
    join_resolver(&mut w, RESOLVER_1, "Resolver 1");
    join_resolver(&mut w, RESOLVER_2, "Resolver 2");
    join_resolver(&mut w, RESOLVER_3, "Resolver 3");
    // Create identity for Alice and Bob
    assert!(w
        .create_identity(ALICE, b"Alice".to_vec(), IdentityType::Individual, vec![])
        .is_ok());
    assert!(w
        .create_identity(BOB, b"Bob".to_vec(), IdentityType::Individual, vec![])
        .is_ok());
    // Alice creates a payment and Bob accepts it.
    let payment_hash = accepted_payment(&mut w, 200);

    // Initial block history for the randomness
    run_blocks(&mut w, &mut block, 32);

    // Alice issues a dispute
    assert!(w.create_dispute(ALICE, payment_hash, b"".to_vec()).is_ok());
    // Bob fights the dispute
    assert!(w.fight_dispute(BOB, payment_hash, b"".to_vec()).is_ok());

    let first = w.disputes.get(payment_hash).unwrap().resolvers[0];
    // Selected resolver proposes the judgment
    assert!(w
        .propose_outcome(first, payment_hash, Judgment::ReleaseFundToPayee)
        .is_ok());
    // Bob escalates the proposal judgment
    assert!(w.escalate_dispute(BOB, payment_hash).is_ok());
    // Alice fights the escalation, 2 more resolvers are selected
    assert!(w.fight_dispute(ALICE, payment_hash, b"".to_vec()).is_ok());

    let (second, third) = {
        let dispute = w.disputes.get(payment_hash).unwrap();
        (dispute.resolvers[1], dispute.resolvers[2])
    };
    assert!(w
        .propose_outcome(second, payment_hash, Judgment::ReleaseFundToPayer)
        .is_ok());
    assert!(w
        .propose_outcome(third, payment_hash, Judgment::ReleaseFundToPayer)
        .is_ok());

    run_blocks(&mut w, &mut block, DISPUTE_FINALIZING_TIME / BLOCK_TIME + 1);

    assert_eq!(w.finalizing_disputes.len(), 0);

    let dispute = w.disputes.get(payment_hash).unwrap();
    assert_eq!(dispute.status, DisputeStatus::Resolved);
    assert_eq!(dispute.outcome, Judgment::ReleaseFundToPayer);

    // Expect the credibility of the parties updated.
    assert_eq!(w.get_credibility(ALICE).unwrap(), 61);
    assert_eq!(w.get_credibility(BOB).unwrap(), 50);
    assert_eq!(w.get_credibility(dispute.resolvers[0]).unwrap(), 50);
    assert_eq!(w.get_credibility(dispute.resolvers[1]).unwrap(), 61);
    assert_eq!(w.get_credibility(dispute.resolvers[2]).unwrap(), 61);
}
