use lrp::currencies::currency_key_of;
use lrp::types::{Config, CurrencyId, CurrencyMetadata, Error, Event};
use lrp::World;

const ALICE: u64 = 1;
const BOB: u64 = 2;

const BONDING_AMOUNT: u128 = 100;

fn test_config() -> Config {
    Config {
        bonding_amount: BONDING_AMOUNT,
        evaluator_bonding: 100,
        initial_credibility: 60,
        max_credibility: 100,
        minimum_self_stake: 100,
        activation_stake_amount: 1000,
        undelegate_time: 172800000,
        required_credibility: 30,
        pending_payment_waiting_time: 172800000,
        fulfilled_payment_waiting_time: 2592000000,
        dispute_finalizing_time: 10000,
        dispute_fee: 100,
        credibility_gain: 1,
        credibility_loss: 10,
        native_token_deposit: 1000,
    }
}

fn new_world() -> World {
    let mut w = World::new(test_config());
    w.ledger.deposit(CurrencyId::Native, ALICE, 1_000).unwrap();
    w.ledger.deposit(CurrencyId::Native, BOB, 1_000).unwrap();
    w
}

fn expected() -> (u64, CurrencyMetadata) {
    let metadata = CurrencyMetadata {
        name: b"Polkadot".to_vec(),
        symbol: b"dot".to_vec(),
        decimals: 12_u8,
        issuer: ALICE,
    };
    let currency_hash = currency_key_of(&metadata.name, &metadata.symbol, 12, ALICE);
    (currency_hash, metadata)
}

#[test]
fn create_currency_works() {
    let mut w = new_world();

    let (currency_hash, metadata) = expected();

    assert!(w
        .create_currency(ALICE, b"Polkadot".to_vec(), b"dot".to_vec(), 12)
        .is_ok());
    assert_eq!(
        w.last_event().unwrap(),
        &Event::CurrencyCreated { currency_hash, created_by: ALICE },
    );
    assert_eq!(w.currencies.get(currency_hash as u128).unwrap(), &metadata);

    assert_eq!(
        w.create_currency(ALICE, b"Polkadot".to_vec(), b"dot".to_vec(), 12),
        Err(Error::CurrencyExisted),
    );
}

#[test]
fn remove_currency_works() {
    let mut w = new_world();

    let (currency_hash, metadata) = expected();

    assert!(w
        .create_currency(ALICE, b"Polkadot".to_vec(), b"dot".to_vec(), 12)
        .is_ok());

    assert_eq!(w.remove_currency(ALICE, 0), Err(Error::CurrencyNotFound));
    assert_eq!(w.remove_currency(BOB, currency_hash), Err(Error::NotCurrencyIssuer));

    assert!(w.remove_currency(ALICE, currency_hash).is_ok());
    assert_eq!(
        w.last_event().unwrap(),
        &Event::CurrencyRemoved {
            currency_hash,
            name: metadata.name,
            symbol: metadata.symbol,
            decimals: 12,
            removed_by: ALICE,
        },
    );

    assert_eq!(w.remove_currency(ALICE, currency_hash), Err(Error::CurrencyNotFound));
}

#[test]
fn accept_currency_works() {
    let mut w = new_world();

    let (currency_hash, _) = expected();

    assert!(w
        .create_currency(ALICE, b"Polkadot".to_vec(), b"dot".to_vec(), 12)
        .is_ok());
    assert_eq!(w.accept_currency(ALICE, 0), Err(Error::CurrencyNotFound));
    assert!(w.accept_currency(BOB, currency_hash).is_ok());
    assert_eq!(
        w.last_event().unwrap(),
        &Event::CurrencyAccepted { currency_hash, accepted_by: BOB },
    );
    let accepted = w.accepted_currencies.get(BOB as u128).unwrap();
    assert_eq!(accepted.len(), 1);
    assert_eq!(accepted[0], currency_hash);
}
