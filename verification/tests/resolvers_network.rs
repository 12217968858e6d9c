use lrp::types::{Config, CurrencyId, Error, Event, IdentityType, ResolverStatus};
use lrp::World;

const ALICE: u64 = 1;
const BOB: u64 = 2;
const CHARLIE: u64 = 3;

const INITIAL_CREDIBILITY: u32 = 60;
const UNDELEGATE_TIME: u64 = 172800000;

const INIT_TIMESTAMP: u64 = 1_000;
const BLOCK_TIME: u64 = 6_000;

fn test_config() -> Config {
    Config {
        bonding_amount: 100,
        evaluator_bonding: 100,
        initial_credibility: INITIAL_CREDIBILITY,
        max_credibility: 100,
        minimum_self_stake: 100,
        activation_stake_amount: 1000,
        undelegate_time: UNDELEGATE_TIME,
        required_credibility: 30,
        pending_payment_waiting_time: 172800000,
        fulfilled_payment_waiting_time: 2592000000,
        dispute_finalizing_time: 10000,
        dispute_fee: 100,
        credibility_gain: 1,
        credibility_loss: 10,
        native_token_deposit: 1000,
    }
}

fn new_world() -> World {
    let mut w = World::new(test_config());
    w.ledger.deposit(CurrencyId::Native, ALICE, 1_000).unwrap();
    w.ledger.deposit(CurrencyId::Native, BOB, 1_000).unwrap();
    w.ledger.deposit(CurrencyId::Native, CHARLIE, 1_000).unwrap();
    w
}

fn run_to_block_number(w: &mut World, block: &mut u64, target: u64) {
    while *block < target {
        *block += 1;
        w.set_timestamp(*block * BLOCK_TIME + INIT_TIMESTAMP);
        w.release_pending_funds();
    }
}

#[test]
fn join_resolvers_networks_works() {
    let mut w = new_world();

    assert_eq!(
        w.join_resolvers_network(ALICE, b"".to_vec(), 300),
        Err(Error::IdentityRequired),
    );

    assert!(w
        .create_identity(ALICE, b"Alice".to_vec(), IdentityType::Individual, vec![])
        .is_ok());

    assert_eq!(
        w.join_resolvers_network(ALICE, b"".to_vec(), 99),
        Err(Error::NotMeetMinimumSelfStake),
    );

    assert_eq!(
        w.join_resolvers_network(ALICE, b"".to_vec(), 10001),
        Err(Error::InsufficientBalance),
    );

    assert!(w.join_resolvers_network(ALICE, b"".to_vec(), 300).is_ok());

    let resolver = w.resolvers.get(ALICE as u128).unwrap();
    assert_eq!(resolver.status, ResolverStatus::Candidacy);
    assert_eq!(resolver.self_stake, 300);
    assert_eq!(resolver.total_stake, 300);
    assert!(resolver.delegations.is_empty());
    assert_eq!(w.ledger.reserved_balance(CurrencyId::Native, ALICE), 300);

    let resolver_credibility = w.get_credibility(ALICE).unwrap();
    assert_eq!(resolver_credibility, INITIAL_CREDIBILITY);

    assert_eq!(w.last_event().unwrap(), &Event::ResolverCreated { account: ALICE });
}

#[test]
fn delegate_works() {
    let mut w = new_world();
    assert!(w
        .create_identity(ALICE, b"Alice".to_vec(), IdentityType::Individual, vec![])
        .is_ok());
    assert!(w.join_resolvers_network(ALICE, b"".to_vec(), 900).is_ok());

    // Test delegate amount tokens that exceed the balance.
    assert_eq!(w.delegate(ALICE, CHARLIE, 1001), Err(Error::InsufficientBalance));

    // Test delegate tokens to account not a resolver.
    assert_eq!(w.delegate(BOB, CHARLIE, 200), Err(Error::ResolverNotFound));

    // Test an account delegate tokens to resolvers.
    assert!(w.delegate(BOB, ALICE, 200).is_ok());
    assert_eq!(w.last_event().unwrap(), &Event::ResolverActivated { account: ALICE });
    let resolver = w.resolvers.get(ALICE as u128).unwrap();
    assert_eq!(resolver.status, ResolverStatus::Active);
    assert_eq!(resolver.self_stake, 900);
    assert_eq!(resolver.total_stake, 1100);
    assert_eq!(resolver.delegations.len(), 1);
    assert_eq!(resolver.delegations[0].delegator, BOB);
    assert_eq!(resolver.delegations[0].amount, 200);
    assert_eq!(w.ledger.reserved_balance(CurrencyId::Native, BOB), 200);

    // Test an account delegate more tokens to the resolver.
    assert!(w.delegate(BOB, ALICE, 300).is_ok());
    let resolver = w.resolvers.get(ALICE as u128).unwrap();
    assert_eq!(resolver.delegations.len(), 1);
    assert_eq!(resolver.delegations[0].delegator, BOB);
    assert_eq!(resolver.delegations[0].amount, 500);
    assert_eq!(w.ledger.reserved_balance(CurrencyId::Native, BOB), 500);

    // Test another account delegate tokens to the resolver.
    assert!(w.delegate(CHARLIE, ALICE, 100).is_ok());
    let resolver = w.resolvers.get(ALICE as u128).unwrap();
    assert_eq!(resolver.status, ResolverStatus::Active);
    assert_eq!(resolver.total_stake, 1500);
    assert_eq!(resolver.delegations.len(), 2);
    assert_eq!(resolver.delegations[0].delegator, BOB);
    assert_eq!(resolver.delegations[0].amount, 500);
    assert_eq!(resolver.delegations[1].delegator, CHARLIE);
    assert_eq!(resolver.delegations[1].amount, 100);
    assert_eq!(w.ledger.reserved_balance(CurrencyId::Native, CHARLIE), 100);
}

#[test]
fn undelegate_works() {
    let mut w = new_world();

    // Test undelegate from account that is not an resolver.
    assert_eq!(w.undelegate(BOB, CHARLIE, 200), Err(Error::ResolverNotFound));

    assert!(w
        .create_identity(ALICE, b"Alice".to_vec(), IdentityType::Individual, vec![])
        .is_ok());
    assert!(w.join_resolvers_network(ALICE, b"".to_vec(), 900).is_ok());

    // Test undelegate without any delegations.
    assert_eq!(w.undelegate(BOB, ALICE, 200), Err(Error::DelegationNotFound));

    // Test undelegate tokens from a resolver.
    assert!(w.delegate(BOB, ALICE, 200).is_ok());
    let resolver = w.resolvers.get(ALICE as u128).unwrap();
    assert_eq!(resolver.status, ResolverStatus::Active);
    assert!(w.undelegate(BOB, ALICE, 200).is_ok());
    assert_eq!(w.last_event().unwrap(), &Event::ResolverInactivated { account: ALICE });
    let resolver = w.resolvers.get(ALICE as u128).unwrap();
    assert_eq!(resolver.status, ResolverStatus::Candidacy);
    assert_eq!(resolver.delegations.len(), 0);
    assert_eq!(w.pending_funds.len(), 1);
    assert_eq!(w.pending_funds[0].owner, BOB);
    assert_eq!(w.pending_funds[0].amount, 200);

    // Test undelegate a small amount tokens from a resolver.
    assert!(w.delegate(BOB, ALICE, 200).is_ok());
    let resolver = w.resolvers.get(ALICE as u128).unwrap();
    assert_eq!(resolver.status, ResolverStatus::Active);
    assert_eq!(resolver.delegations.len(), 1);
    assert_eq!(resolver.delegations[0].delegator, BOB);
    assert_eq!(resolver.delegations[0].amount, 200);

    assert!(w.undelegate(BOB, ALICE, 50).is_ok());
    let resolver = w.resolvers.get(ALICE as u128).unwrap();
    assert_eq!(resolver.status, ResolverStatus::Active);
    assert_eq!(resolver.delegations.len(), 1);
    assert_eq!(resolver.delegations[0].delegator, BOB);
    assert_eq!(resolver.delegations[0].amount, 150);

    assert_eq!(w.pending_funds.len(), 2);
    assert_eq!(w.pending_funds[1].owner, BOB);
    assert_eq!(w.pending_funds[1].amount, 50);
}

#[test]
fn release_funds_works() {
    let mut w = new_world();
    let mut block: u64 = 1;

    assert!(w
        .create_identity(ALICE, b"Alice".to_vec(), IdentityType::Individual, vec![])
        .is_ok());
    assert!(w.join_resolvers_network(ALICE, b"".to_vec(), 500).is_ok());
    // Bob and Charlie delegate tokens.
    assert!(w.delegate(BOB, ALICE, 200).is_ok());
    assert!(w.delegate(CHARLIE, ALICE, 200).is_ok());
    assert_eq!(w.ledger.reserved_balance(CurrencyId::Native, BOB), 200);
    assert_eq!(w.ledger.reserved_balance(CurrencyId::Native, CHARLIE), 200);
    // Bob and Charlie undelegate tokens.
    assert!(w.undelegate(BOB, ALICE, 200).is_ok());
    assert!(w.undelegate(CHARLIE, ALICE, 200).is_ok());
    // The undelegated funds are still locked.
    assert_eq!(w.ledger.reserved_balance(CurrencyId::Native, BOB), 200);
    assert_eq!(w.ledger.reserved_balance(CurrencyId::Native, CHARLIE), 200);
    // There are 2 pending funds.
    assert_eq!(w.pending_funds.len(), 2);
    assert_eq!(w.pending_funds[0].owner, BOB);
    assert_eq!(w.pending_funds[0].amount, 200);
    assert_eq!(w.pending_funds[1].owner, CHARLIE);
    assert_eq!(w.pending_funds[1].amount, 200);

    // Wait until the undelegate time.
    run_to_block_number(&mut w, &mut block, UNDELEGATE_TIME / BLOCK_TIME);
    // The undelegated funds are released.
    assert_eq!(w.ledger.reserved_balance(CurrencyId::Native, BOB), 0);
    assert_eq!(w.ledger.reserved_balance(CurrencyId::Native, CHARLIE), 0);
    // Pending funds is removed from the queue.
    assert_eq!(w.pending_funds.len(), 0);
}

#[test]
fn resign_works() {
    let mut w = new_world();
    let mut block: u64 = 1;

    // Test an account that is not resolver resign.
    assert_eq!(w.resign(ALICE), Err(Error::NotAResolver));

    // Test a resolver resign.
    assert!(w
        .create_identity(ALICE, b"Alice".to_vec(), IdentityType::Individual, vec![])
        .is_ok());
    assert!(w.join_resolvers_network(ALICE, b"".to_vec(), 500).is_ok());
    assert!(w.delegate(BOB, ALICE, 200).is_ok());
    assert!(w.delegate(CHARLIE, ALICE, 200).is_ok());

    assert!(w.resign(ALICE).is_ok());
    assert_eq!(w.last_event().unwrap(), &Event::ResolverTerminated { account: ALICE });
    let resolver = w.resolvers.get(ALICE as u128).unwrap();
    assert_eq!(resolver.status, ResolverStatus::Terminated);
    assert_eq!(resolver.delegations.len(), 0);
    assert_eq!(resolver.self_stake, 0);
    assert_eq!(resolver.total_stake, 0);

    assert_eq!(w.pending_funds.len(), 3);
    assert_eq!(w.pending_funds[0].owner, ALICE);
    assert_eq!(w.pending_funds[0].amount, 500);
    assert_eq!(w.pending_funds[1].owner, BOB);
    assert_eq!(w.pending_funds[1].amount, 200);
    assert_eq!(w.pending_funds[2].owner, CHARLIE);
    assert_eq!(w.pending_funds[2].amount, 200);

    run_to_block_number(&mut w, &mut block, UNDELEGATE_TIME / BLOCK_TIME);

    assert_eq!(w.ledger.reserved_balance(CurrencyId::Native, ALICE), 0);
    assert_eq!(w.ledger.reserved_balance(CurrencyId::Native, BOB), 0);
    assert_eq!(w.ledger.reserved_balance(CurrencyId::Native, CHARLIE), 0);
}

#[test]
fn test_increase_resolver_credibility_works() {
    let mut w = new_world();
    // Create a active resolver.
    assert!(w
        .create_identity(ALICE, b"Alice".to_vec(), IdentityType::Individual, vec![])
        .is_ok());
    assert!(w.join_resolvers_network(ALICE, b"".to_vec(), 1000).is_ok());

    let resolver = w.resolvers.get(ALICE as u128).unwrap();
    assert_eq!(resolver.status, ResolverStatus::Active);
    assert_eq!(w.get_credibility(ALICE).unwrap(), INITIAL_CREDIBILITY);

    assert!(w.increase_resolver_credibility(ALICE, 10).is_ok());
    assert_eq!(w.get_credibility(ALICE).unwrap(), INITIAL_CREDIBILITY + 10);
}

#[test]
fn test_reduce_resolver_credibility_works() {
    let mut w = new_world();

    assert!(w
        .create_identity(ALICE, b"Alice".to_vec(), IdentityType::Individual, vec![])
        .is_ok());
    assert!(w.join_resolvers_network(ALICE, b"".to_vec(), 1000).is_ok());

    let resolver = w.resolvers.get(ALICE as u128).unwrap();
    assert_eq!(resolver.status, ResolverStatus::Active);
    assert_eq!(w.get_credibility(ALICE).unwrap(), INITIAL_CREDIBILITY);
    assert!(w.decrease_resolver_credibility(ALICE, 10).is_ok());

    // Test reduce a resolver credibility.
    assert_eq!(w.get_credibility(ALICE).unwrap(), INITIAL_CREDIBILITY - 10);

    // Test a resolver will be terminated if credibility under the floor.
    assert!(w.decrease_resolver_credibility(ALICE, 30).is_ok());
    let resolver = w.resolvers.get(ALICE as u128).unwrap();
    assert_eq!(w.get_credibility(ALICE).unwrap(), 20);
    assert_eq!(resolver.status, ResolverStatus::Terminated);
}
