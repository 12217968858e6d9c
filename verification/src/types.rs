//! The data model of the engine: currencies, identities, payments, disputes,
//! resolvers, the error taxonomy and the event taxonomy.
//!
//! Accounts are opaque 64-bit identifiers. Balances are 128-bit. Moments are
//! 64-bit millisecond timestamps supplied by the host clock at block
//! boundaries. Content-addressed keys are 61-bit digests (see `hashing`);
//! a payment key additionally carries the unique payment id in its upper
//! bits, which keeps payment keys collision-free.

use vstd::prelude::*;

verus! {

/// A currency: the native token, or a registered currency addressed by the
/// digest of its metadata. Two registered currencies with identical metadata
/// collide by design.
#[derive(Clone, Copy, Debug, PartialEq, Eq, Structural)]
pub enum CurrencyId {
    Native,
    Registered(u64),
}

/// Metadata of a registered currency; its digest is the currency's key.
#[derive(Debug, PartialEq, Eq)]
pub struct CurrencyMetadata {
    pub name: Vec<u8>,
    pub symbol: Vec<u8>,
    pub decimals: u8,
    pub issuer: u64,
}

#[derive(Clone, Copy, Debug, PartialEq, Eq, Structural)]
pub enum PaymentStatus {
    Pending,
    Accepted,
    Rejected,
    Expired,
    Fulfilled,
    Disputed,
    Cancelled,
    Completed,
}

/// An escrowed payment. While the status is `Pending`, `Accepted`,
/// `Fulfilled` or `Disputed`, exactly `amount` of `currency_id` is reserved
/// from `payer`.
#[derive(Debug, PartialEq, Eq)]
pub struct Payment {
    pub id: u64,
    pub payer: u64,
    pub payee: u64,
    pub amount: u128,
    pub currency_id: CurrencyId,
    pub description: Vec<u8>,
    pub status: PaymentStatus,
    pub receipt_hash: u64,
    pub created_at: u64,
    pub updated_at: u64,
    pub updated_by: u64,
}

#[derive(Clone, Copy, Debug, PartialEq, Eq, Structural)]
pub enum Judgment {
    ReleaseFundToPayer,
    ReleaseFundToPayee,
}

#[derive(Clone, Copy, Debug, PartialEq, Eq, Structural)]
pub enum DisputeStatus {
    Finalizing,
    Evaluating,
    Resolved,
}

/// One argument filed in a dispute: who provided it and the digest under
/// which its content is addressed.
#[derive(Clone, Copy, Debug, PartialEq, Eq, Structural)]
pub struct Argument {
    pub provider: u64,
    pub content_hash: u64,
}

/// A dispute over one payment, keyed by the payment's key.
#[derive(Debug, PartialEq, Eq)]
pub struct Dispute {
    pub status: DisputeStatus,
    pub payment_hash: u128,
    pub expired_at: u64,
    pub arguments: Vec<Argument>,
    pub resolvers: Vec<u64>,
    pub fee: u128,
    pub judgments: Vec<(u64, Judgment)>,
    pub outcome: Judgment,
}

#[derive(Clone, Copy, Debug, PartialEq, Eq, Structural)]
pub enum VerifyMethod {
    Domain,
    Email,
    Evaluator,
    NoVerify,
}

#[derive(Clone, Copy, Debug, PartialEq, Eq, Structural)]
pub enum IdentityType {
    Individual,
    Organization,
}

/// A data field as submitted by the identity owner.
#[derive(Debug, PartialEq, Eq)]
pub struct IdentityFieldInput {
    pub name: Vec<u8>,
    pub value: Vec<u8>,
    pub verify_method: VerifyMethod,
}

/// A stored data field; starts unverified.
#[derive(Debug, PartialEq, Eq)]
pub struct IdentityField {
    pub name: Vec<u8>,
    pub value: Vec<u8>,
    pub verify_method: VerifyMethod,
    pub is_verified: bool,
    pub verify_by: Option<u64>,
}

#[derive(Clone, Copy, Debug, PartialEq, Eq, Structural)]
pub struct IdentityReview {
    pub reviewer: u64,
    pub content_digest: u64,
}

/// A self-sovereign identity record, keyed by its owner's account.
#[derive(Debug, PartialEq, Eq)]
pub struct Identity {
    pub name: Vec<u8>,
    pub identity_type: IdentityType,
    pub credibility: u32,
    pub data: Vec<IdentityField>,
    pub reviews: Vec<IdentityReview>,
}

/// A verification service provider, keyed by its account.
#[derive(Debug, PartialEq, Eq)]
pub struct Evaluator {
    pub name: Vec<u8>,
    pub about: Vec<u8>,
    pub rate: u128,
}

/// A pending request for an evaluator to verify the given data positions of
/// the requestor's identity.
#[derive(Debug, PartialEq, Eq)]
pub struct VerifyRequest {
    pub requestor: u64,
    pub positions: Vec<u64>,
}

#[derive(Clone, Copy, Debug, PartialEq, Eq, Structural)]
pub enum ResolverStatus {
    Candidacy,
    Active,
    Terminated,
}

#[derive(Clone, Copy, Debug, PartialEq, Eq, Structural)]
pub struct Delegation {
    pub delegator: u64,
    pub amount: u128,
}

/// A member of the resolver network, keyed by its account.
#[derive(Debug, PartialEq, Eq)]
pub struct Resolver {
    pub application_digest: u64,
    pub status: ResolverStatus,
    pub self_stake: u128,
    pub delegations: Vec<Delegation>,
    pub total_stake: u128,
    pub updated_at: u64,
}

/// A delayed unreservation: `amount` stays reserved for `owner` until a sweep
/// finds `release_at` reached.
#[derive(Clone, Copy, Debug, PartialEq, Eq, Structural)]
pub struct PendingFund {
    pub owner: u64,
    pub amount: u128,
    pub release_at: u64,
}

/// Typed, local errors: a failing call returns one of these and commits no
/// state change.
#[derive(Clone, Copy, Debug, PartialEq, Eq, Structural)]
pub enum Error {
    AccessDenied,
    NotCurrencyIssuer,
    CurrencyNotFound,
    PaymentNotFound,
    DisputeNotFound,
    ResolverNotFound,
    IdentityNotFound,
    EvaluatorNotFound,
    DelegationNotFound,
    VerifyRequestNotFound,
    CurrencyExisted,
    IdentityExisted,
    EvaluatorExisted,
    CanOnlyReviewOnce,
    InvalidStatusChange,
    DisputeNotAccepted,
    ActionForOnlyFinalizingDispute,
    PaymentNonexpired,
    InsufficientBalance,
    Overflow,
    InvalidAmount,
    InvalidDomain,
    InvalidEmail,
    InvalidTranscript,
    IdentityRequired,
    CredibilityTooLow,
    NotMeetMinimumSelfStake,
    UnacceptedCurrency,
    NoAnyActiveResolver,
    NotAResolver,
}

/// One event per completed transition, appended to the world's event log in
/// block order.
#[derive(Debug, PartialEq, Eq)]
pub enum Event {
    CurrencyCreated { currency_hash: u64, created_by: u64 },
    CurrencyRemoved { currency_hash: u64, name: Vec<u8>, symbol: Vec<u8>, decimals: u8, removed_by: u64 },
    CurrencyAccepted { currency_hash: u64, accepted_by: u64 },
    IdentityCreated { account_id: u64 },
    IdentityUpdated { account_id: u64 },
    IdentityRemoved { account_id: u64 },
    EvaluatorCreated { account: u64, name: Vec<u8>, about: Vec<u8>, rate: u128 },
    VerifyDataRequestCreated { requestor: u64, positions: Vec<u64>, evaluator: u64 },
    DataVerified { account: u64, positions: Vec<u64>, evaluator: u64 },
    IdentityReviewAdded { account: u64, reviewer: u64, content_digest: u64 },
    PaymentCreated { payment_hash: u128, payer: u64, payee: u64, currency_id: CurrencyId, amount: u128 },
    PaymentAccepted { payment_hash: u128, payer: u64, payee: u64, currency_id: CurrencyId, amount: u128 },
    PaymentRejected { payment_hash: u128, payer: u64, payee: u64, currency_id: CurrencyId, amount: u128 },
    PaymentExpired { payment_hash: u128, payer: u64, payee: u64, currency_id: CurrencyId, amount: u128 },
    PaymentFulfilled { payment_hash: u128, payer: u64, payee: u64, currency_id: CurrencyId, amount: u128 },
    PaymentCancelled { payment_hash: u128, payer: u64, payee: u64, currency_id: CurrencyId, amount: u128 },
    PaymentDisputed { payment_hash: u128, payer: u64, payee: u64, currency_id: CurrencyId, amount: u128 },
    PaymentCompleted { payment_hash: u128, payer: u64, payee: u64, currency_id: CurrencyId, amount: u128 },
    DisputeCreated { payment_hash: u128, payer: u64, payee: u64 },
    DisputeFought { payment_hash: u128, payer: u64, payee: u64 },
    DisputeEscalated { payment_hash: u128, payer: u64, payee: u64 },
    DisputeResolved { payment_hash: u128, payer: u64, payee: u64, amount: u128, currency_id: CurrencyId },
    ResolverCreated { account: u64 },
    ResolverActivated { account: u64 },
    ResolverInactivated { account: u64 },
    ResolverTerminated { account: u64 },
    FaucetAccepted { account: u64, amount: u128, currency_id: CurrencyId },
}

/// The configuration constants, supplied once at instantiation.
#[derive(Clone, Copy, Debug, PartialEq, Eq, Structural)]
pub struct Config {
    /// Native amount reserved per registered currency.
    pub bonding_amount: u128,
    /// Native amount reserved per evaluator.
    pub evaluator_bonding: u128,
    /// Credibility a fresh identity starts with.
    pub initial_credibility: u32,
    /// Upper bound that credibility saturates at.
    pub max_credibility: u32,
    /// Floor on a resolver's self-stake.
    pub minimum_self_stake: u128,
    /// Total stake at which a resolver becomes active.
    pub activation_stake_amount: u128,
    /// Delay before an undelegated or resigned stake is released.
    pub undelegate_time: u64,
    /// Credibility floor to join, and to remain, a resolver.
    pub required_credibility: u32,
    /// Auto-expiry delay for pending payments.
    pub pending_payment_waiting_time: u64,
    /// Auto-completion delay for fulfilled payments.
    pub fulfilled_payment_waiting_time: u64,
    /// Countdown before a finalizing dispute is settled.
    pub dispute_finalizing_time: u64,
    /// Per-resolver base dispute fee, in native currency.
    pub dispute_fee: u128,
    /// Credibility gained by the winning side of a dispute.
    pub credibility_gain: u32,
    /// Credibility lost by the losing side of a dispute.
    pub credibility_loss: u32,
    /// Native amount granted alongside a non-native faucet request.
    pub native_token_deposit: u128,
}

impl Config {
    /// The constants an instantiation must satisfy.
    pub open spec fn wf(self) -> bool {
        self.initial_credibility <= self.max_credibility
    }
}

} // verus!
