use lrp::types::{Config, CurrencyId};
use lrp::World;

const ALICE: u64 = 1;

fn test_config() -> Config {
    Config {
        bonding_amount: 100,
        evaluator_bonding: 100,
        initial_credibility: 60,
        max_credibility: 100,
        minimum_self_stake: 100,
        activation_stake_amount: 1000,
        undelegate_time: 172800000,
        required_credibility: 30,
        pending_payment_waiting_time: 172800000,
        fulfilled_payment_waiting_time: 2592000000,
        dispute_finalizing_time: 10000,
        dispute_fee: 100,
        credibility_gain: 1,
        credibility_loss: 10,
        native_token_deposit: 1000,
    }
}

#[test]
fn faucet_works() {
    let mut w = World::new(test_config());

    assert!(w.faucet(ALICE, 1000, CurrencyId::Registered(0)).is_ok());
    assert_eq!(w.ledger.free_balance(CurrencyId::Native, ALICE), 1000);
    assert_eq!(w.ledger.free_balance(CurrencyId::Registered(0), ALICE), 1000);
}
