//! The payment engine: a multi-state escrow protocol. Creating a payment
//! reserves its amount from the payer; the amount stays reserved until a
//! terminal transition (rejection, expiry, cancellation or completion)
//! releases or transfers it.

use vstd::prelude::*;
use crate::hashing::{
    digest_bytes, digest_chain_u64, digest_push_byte, digest_of, digest_step, digest_u64,
    DIGEST_MOD,
};
use crate::ledger::{unreserve_released, AccountBalance};
use crate::types::{CurrencyId, Error, Event, Payment, PaymentStatus};
use crate::util::{copy_u128s, lemma_filter_contains_u128, remove_all_u128, seq_remove_u128};
use crate::world::World;

verus! {

/// The content digest of a payment record at creation time.
pub open spec fn payment_content_digest(
    id: u64,
    payer: u64,
    payee: u64,
    amount: u128,
    currency_id: CurrencyId,
    description: Seq<u8>,
    receipt_hash: u64,
    created_at: u64,
) -> int {
    let h0 = digest_of(description);
    let h1 = digest_u64(digest_u64(digest_u64(h0, id), payer), payee);
    let h2 = digest_u64(
        digest_u64(h1, (amount & 0xffffffffffffffff) as u64),
        (amount >> 64) as u64,
    );
    let h3 = match currency_id {
        CurrencyId::Native => digest_step(h2, 0),
        CurrencyId::Registered(ch) => digest_u64(digest_step(h2, 1), ch),
    };
    digest_u64(digest_u64(h3, receipt_hash), created_at)
}

/// A payment's store key: the unique id in the upper bits, the content
/// digest in the lower ones. Content-derived, yet collision-free across
/// distinct ids.
pub open spec fn payment_key(id: u64, d: int) -> u128 {
    ((id as int) * 0x10000000000000000 + d) as u128
}

/// The id can be read back off the key.
pub proof fn lemma_payment_key_id(id: u64, d: int)
    requires
        0 <= d < 0x10000000000000000,
    ensures
        (payment_key(id, d) as int) / 0x10000000000000000 == id as int,
{
    assert(((id as int) * 0x10000000000000000 + d) / 0x10000000000000000 == id as int)
        by (nonlinear_arith)
        requires
            0 <= d < 0x10000000000000000,
            0 <= id as int <= 0xffffffffffffffff,
    ;
}

/// The content digest is a digest, so it stays inside `[0, 2^61)`.
pub proof fn lemma_payment_content_digest_bounded(
    id: u64,
    payer: u64,
    payee: u64,
    amount: u128,
    currency_id: CurrencyId,
    description: Seq<u8>,
    receipt_hash: u64,
    created_at: u64,
)
    ensures
        0 <= payment_content_digest(
            id,
            payer,
            payee,
            amount,
            currency_id,
            description,
            receipt_hash,
            created_at,
        ) < DIGEST_MOD,
{
    crate::hashing::lemma_digest_from_bounded(crate::hashing::DIGEST_SEED as int, description);
    let h0 = digest_of(description);
    crate::hashing::lemma_digest_from_bounded(h0, crate::hashing::u64_le_bytes(id));
    let ha = digest_u64(h0, id);
    crate::hashing::lemma_digest_from_bounded(ha, crate::hashing::u64_le_bytes(payer));
    let hb = digest_u64(ha, payer);
    crate::hashing::lemma_digest_from_bounded(hb, crate::hashing::u64_le_bytes(payee));
    let h1 = digest_u64(hb, payee);
    crate::hashing::lemma_digest_from_bounded(
        h1,
        crate::hashing::u64_le_bytes((amount & 0xffffffffffffffff) as u64),
    );
    let hc = digest_u64(h1, (amount & 0xffffffffffffffff) as u64);
    crate::hashing::lemma_digest_from_bounded(
        hc,
        crate::hashing::u64_le_bytes((amount >> 64) as u64),
    );
    let h2 = digest_u64(hc, (amount >> 64) as u64);
    let h3 = match currency_id {
        CurrencyId::Native => digest_step(h2, 0),
        CurrencyId::Registered(ch) => {
            crate::hashing::lemma_digest_from_bounded(
                digest_step(h2, 1),
                crate::hashing::u64_le_bytes(ch),
            );
            digest_u64(digest_step(h2, 1), ch)
        },
    };
    crate::hashing::lemma_digest_from_bounded(h3, crate::hashing::u64_le_bytes(receipt_hash));
    let h4 = digest_u64(h3, receipt_hash);
    crate::hashing::lemma_digest_from_bounded(h4, crate::hashing::u64_le_bytes(created_at));
}

/// Computes a payment's store key.
fn payment_key_of(
    id: u64,
    payer: u64,
    payee: u64,
    amount: u128,
    currency_id: &CurrencyId,
    description: &Vec<u8>,
    receipt_hash: u64,
    created_at: u64,
) -> (k: u128)
    ensures
        k == payment_key(
            id,
            payment_content_digest(
                id,
                payer,
                payee,
                amount,
                *currency_id,
                description@,
                receipt_hash,
                created_at,
            ),
        ),
{
    let mut h = digest_bytes(description);
    h = digest_chain_u64(h, id);
    h = digest_chain_u64(h, payer);
    h = digest_chain_u64(h, payee);
    h = digest_chain_u64(h, (amount & 0xffffffffffffffff) as u64);
    h = digest_chain_u64(h, (amount >> 64) as u64);
    h = match currency_id {
        CurrencyId::Native => digest_push_byte(h, 0),
        CurrencyId::Registered(ch) => digest_chain_u64(digest_push_byte(h, 1), *ch),
    };
    h = digest_chain_u64(h, receipt_hash);
    h = digest_chain_u64(h, created_at);
    (id as u128) * 0x10000000000000000 + (h as u128)
}

impl World {
    /// A payment key carries its payment's id, and ids never exceed the
    /// global counter.
    pub open spec fn payment_keys_ok(self) -> bool {
        forall|h: u128| #[trigger]
            self.payments@.contains_key(h) ==> {
                &&& (h as int) / 0x10000000000000000 == self.payments@[h].id as int
                &&& self.payments@[h].id <= self.latest_payment_id
                &&& self.payments@[h].id >= 1
            }
    }

    /// The queue-membership invariant: a payment key stands in the pending
    /// queue iff its payment is `Pending`, and in the fulfilled queue iff
    /// its payment is `Fulfilled`.
    pub open spec fn queues_ok(self) -> bool {
        &&& forall|h: u128| #[trigger]
            self.pending_payment_hashes@.contains(h) ==> self.payments@.contains_key(h)
                && self.payments@[h].status is Pending
        &&& forall|h: u128| #[trigger]
            self.fulfilled_payment_hashes@.contains(h) ==> self.payments@.contains_key(h)
                && self.payments@[h].status is Fulfilled
        &&& forall|h: u128| #[trigger]
            self.payments@.contains_key(h) ==> {
                &&& (self.payments@[h].status is Pending ==> self.pending_payment_hashes@.contains(
                    h,
                ))
                &&& (self.payments@[h].status is Fulfilled
                    ==> self.fulfilled_payment_hashes@.contains(h))
            }
    }

    /// Both payment-engine invariants at once.
    pub open spec fn payments_ok(self) -> bool {
        self.queues_ok() && self.payment_keys_ok()
    }

    /// What `create_payment` does: reserves the amount from the payer,
    /// stores the payment under its content-derived key with a fresh id,
    /// and queues it as pending.
    pub open spec fn create_payment_post(
        pre: World,
        post: World,
        payer: u64,
        payee: u64,
        amount: u128,
        currency_id: CurrencyId,
        description: Vec<u8>,
        receipt: Seq<u8>,
        r: Result<(), Error>,
    ) -> bool {
        let id_ok = pre.latest_payment_id < u64::MAX;
        let id = (pre.latest_payment_id + 1) as u64;
        let free_ok = pre.ledger.free_of(currency_id, payer) >= amount;
        let accepted = pre.is_accepted(payee, currency_id);
        let res_ok = pre.ledger.reserved_of(currency_id, payer) + amount <= u128::MAX;
        let receipt_hash = digest_of(receipt) as u64;
        let d = payment_content_digest(
            id,
            payer,
            payee,
            amount,
            currency_id,
            description@,
            receipt_hash,
            pre.now,
        );
        let k = payment_key(id, d);
        let owned = if pre.payments_owned@.contains_key(payer as u128) {
            pre.payments_owned@[payer as u128]@
        } else {
            Seq::<u128>::empty()
        };
        &&& r.is_ok() == (id_ok && free_ok && accepted && res_ok)
        &&& if r.is_ok() {
            let p = post.payments@[k];
            &&& post.latest_payment_id == id
            &&& post.payments@.dom() == pre.payments@.dom().insert(k)
            &&& forall|h: u128|
                h != k && pre.payments@.contains_key(h) ==> #[trigger] post.payments@[h]
                    == pre.payments@[h]
            &&& p.id == id
            &&& p.payer == payer
            &&& p.payee == payee
            &&& p.amount == amount
            &&& p.currency_id == currency_id
            &&& p.description == description
            &&& p.status is Pending
            &&& p.receipt_hash == receipt_hash
            &&& p.created_at == pre.now
            &&& p.updated_at == pre.now
            &&& p.updated_by == payer
            &&& post.payments_owned@.dom() == pre.payments_owned@.dom().insert(payer as u128)
            &&& forall|a: u128|
                a != payer as u128 && pre.payments_owned@.contains_key(a)
                    ==> #[trigger] post.payments_owned@[a] == pre.payments_owned@[a]
            &&& post.payments_owned@[payer as u128]@ == owned.push(k)
            &&& post.pending_payment_hashes@ == pre.pending_payment_hashes@.push(k)
            &&& post.fulfilled_payment_hashes == pre.fulfilled_payment_hashes
            &&& post.ledger.bal(currency_id, payer) == (AccountBalance {
                free: (pre.ledger.free_of(currency_id, payer) - amount) as u128,
                reserved: (pre.ledger.reserved_of(currency_id, payer) + amount) as u128,
            })
            &&& pre.ledger.same_except(post.ledger, currency_id, payer)
            &&& post.events@ == pre.events@.push(
                Event::PaymentCreated { payment_hash: k, payer, payee, currency_id, amount },
            )
            &&& World::same_env(pre, post)
            &&& World::same_currencies(pre, post)
            &&& World::same_identities(pre, post)
            &&& World::same_resolvers(pre, post)
            &&& World::same_disputes(pre, post)
        } else {
            &&& World::unchanged(pre, post)
            &&& r == Result::<(), Error>::Err(
                if !id_ok {
                    Error::Overflow
                } else if !free_ok {
                    Error::InsufficientBalance
                } else if !accepted {
                    Error::UnacceptedCurrency
                } else {
                    Error::Overflow
                },
            )
        }
    }

    /// Creates a payment from `payer` to `payee`, reserving the amount.
    pub fn create_payment(
        &mut self,
        payer: u64,
        payee: u64,
        amount: u128,
        currency_id: CurrencyId,
        description: Vec<u8>,
        receipt: Vec<u8>,
    ) -> (r: Result<(), Error>)
        ensures
            World::create_payment_post(
                *old(self),
                *final(self),
                payer,
                payee,
                amount,
                currency_id,
                description,
                receipt@,
                r,
            ),
            old(self).payments_ok() ==> final(self).payments_ok(),
    {
        if self.latest_payment_id >= u64::MAX {
            return Err(Error::Overflow);
        }
        let id = self.latest_payment_id + 1;
        if self.ledger.free_balance(currency_id, payer) < amount {
            return Err(Error::InsufficientBalance);
        }
        if !self.is_currency_accepted(payee, &currency_id) {
            return Err(Error::UnacceptedCurrency);
        }
        match self.ledger.reserve(currency_id, payer, amount) {
            Err(e) => {
                return Err(e);
            },
            Ok(()) => {},
        }
        let receipt_hash = digest_bytes(&receipt);
        let k = payment_key_of(
            id,
            payer,
            payee,
            amount,
            &currency_id,
            &description,
            receipt_hash,
            self.now,
        );
        let payment = Payment {
            id,
            payer,
            payee,
            amount,
            currency_id,
            description,
            status: PaymentStatus::Pending,
            receipt_hash,
            created_at: self.now,
            updated_at: self.now,
            updated_by: payer,
        };
        proof {
            lemma_payment_content_digest_bounded(
                id,
                payer,
                payee,
                amount,
                currency_id,
                payment.description@,
                receipt_hash,
                self.now,
            );
            lemma_payment_key_id(
                id,
                payment_content_digest(
                    id,
                    payer,
                    payee,
                    amount,
                    currency_id,
                    payment.description@,
                    receipt_hash,
                    self.now,
                ),
            );
            if old(self).payment_keys_ok() && old(self).payments@.contains_key(k) {
                assert(false);
            }
        }
        self.payments.insert(k, payment);
        let mut owned = match self.payments_owned.remove(payer as u128) {
            Some(l) => l,
            None => Vec::new(),
        };
        owned.push(k);
        self.payments_owned.insert(payer as u128, owned);
        self.latest_payment_id = id;
        self.pending_payment_hashes.push(k);
        self.events.push(
            Event::PaymentCreated { payment_hash: k, payer, payee, currency_id, amount },
        );
        proof {
            assert(self.payments@.dom() =~= old(self).payments@.dom().insert(k));
            assert(self.payments_owned@.dom() =~= old(self).payments_owned@.dom().insert(
                payer as u128,
            ));
            if old(self).payments_ok() {
                assert forall|h: u128| #[trigger]
                    self.pending_payment_hashes@.contains(h) implies self.payments@.contains_key(h)
                    && self.payments@[h].status is Pending by {
                    if h != k {
                        let i = choose|i: int|
                            0 <= i < self.pending_payment_hashes@.len()
                                && self.pending_payment_hashes@[i] == h;
                        assert(old(self).pending_payment_hashes@[i] == h);
                        assert(old(self).pending_payment_hashes@.contains(h));
                    }
                }
                assert forall|h: u128| #[trigger]
                    self.fulfilled_payment_hashes@.contains(h) implies self.payments@.contains_key(
                    h,
                ) && self.payments@[h].status is Fulfilled by {
                    assert(old(self).fulfilled_payment_hashes@.contains(h));
                }
                assert forall|h: u128| #[trigger]
                    self.payments@.contains_key(h) implies {
                    &&& (self.payments@[h].status is Pending
                        ==> self.pending_payment_hashes@.contains(h))
                    &&& (self.payments@[h].status is Fulfilled
                        ==> self.fulfilled_payment_hashes@.contains(h))
                } by {
                    if h == k {
                        assert(self.pending_payment_hashes@.last() == k);
                        assert(self.pending_payment_hashes@.contains(k));
                    } else {
                        assert(old(self).payments@.contains_key(h));
                        if old(self).payments@[h].status is Pending {
                            let i = choose|i: int|
                                0 <= i < old(self).pending_payment_hashes@.len() && old(
                                    self,
                                ).pending_payment_hashes@[i] == h;
                            assert(self.pending_payment_hashes@[i] == h);
                            assert(self.pending_payment_hashes@.contains(h));
                        }
                    }
                }
            }
        }
        Ok(())
    }

    /// The shape of a status update: only the status, the update stamp and
    /// the updater change.
    pub open spec fn payment_updated(
        pre_p: Payment,
        post_p: Payment,
        status: PaymentStatus,
        now: u64,
        updated_by: u64,
    ) -> bool {
        &&& post_p.id == pre_p.id
        &&& post_p.payer == pre_p.payer
        &&& post_p.payee == pre_p.payee
        &&& post_p.amount == pre_p.amount
        &&& post_p.currency_id == pre_p.currency_id
        &&& post_p.description == pre_p.description
        &&& post_p.status == status
        &&& post_p.receipt_hash == pre_p.receipt_hash
        &&& post_p.created_at == pre_p.created_at
        &&& post_p.updated_at == now
        &&& post_p.updated_by == updated_by
    }

    /// What `accept_payment` does: the payee takes a pending payment out of
    /// the pending queue into `Accepted`.
    pub open spec fn accept_payment_post(
        pre: World,
        post: World,
        sender: u64,
        payment_hash: u128,
        r: Result<(), Error>,
    ) -> bool {
        let found = pre.payments@.contains_key(payment_hash);
        let p = pre.payments@[payment_hash];
        let is_payee = found && p.payee == sender;
        let pending = p.status is Pending;
        &&& r.is_ok() == (found && is_payee && pending)
        &&& if r.is_ok() {
            &&& post.payments@.dom() == pre.payments@.dom()
            &&& forall|h: u128|
                h != payment_hash && pre.payments@.contains_key(h) ==> #[trigger] post.payments@[h]
                    == pre.payments@[h]
            &&& World::payment_updated(
                p,
                post.payments@[payment_hash],
                PaymentStatus::Accepted,
                pre.now,
                sender,
            )
            &&& post.pending_payment_hashes@ == seq_remove_u128(
                pre.pending_payment_hashes@,
                payment_hash,
            )
            &&& post.fulfilled_payment_hashes == pre.fulfilled_payment_hashes
            &&& post.payments_owned == pre.payments_owned
            &&& post.latest_payment_id == pre.latest_payment_id
            &&& World::same_ledger(pre, post)
            &&& post.events@ == pre.events@.push(
                Event::PaymentAccepted {
                    payment_hash,
                    payer: p.payer,
                    payee: p.payee,
                    currency_id: p.currency_id,
                    amount: p.amount,
                },
            )
            &&& World::same_env(pre, post)
            &&& World::same_currencies(pre, post)
            &&& World::same_identities(pre, post)
            &&& World::same_resolvers(pre, post)
            &&& World::same_disputes(pre, post)
        } else {
            &&& World::unchanged(pre, post)
            &&& r == Result::<(), Error>::Err(
                if !found {
                    Error::PaymentNotFound
                } else if !is_payee {
                    Error::AccessDenied
                } else {
                    Error::InvalidStatusChange
                },
            )
        }
    }

    /// Accepts a pending payment; payee only.
    pub fn accept_payment(&mut self, sender: u64, payment_hash: u128) -> (r: Result<(), Error>)
        ensures
            World::accept_payment_post(*old(self), *final(self), sender, payment_hash, r),
            old(self).payments_ok() ==> final(self).payments_ok(),
    {
        let ok = match self.payments.get(payment_hash) {
            None => {
                return Err(Error::PaymentNotFound);
            },
            Some(p) => {
                if p.payee != sender {
                    return Err(Error::AccessDenied);
                }
                match p.status {
                    PaymentStatus::Pending => true,
                    _ => false,
                }
            },
        };
        if !ok {
            return Err(Error::InvalidStatusChange);
        }
        let mut p = self.payments.remove(payment_hash).unwrap();
        let (payer, payee, currency_id, amount) = (p.payer, p.payee, p.currency_id, p.amount);
        p.status = PaymentStatus::Accepted;
        p.updated_at = self.now;
        p.updated_by = sender;
        self.payments.insert(payment_hash, p);
        remove_all_u128(&mut self.pending_payment_hashes, payment_hash);
        self.events.push(
            Event::PaymentAccepted { payment_hash, payer, payee, currency_id, amount },
        );
        proof {
            assert(self.payments@.dom() =~= old(self).payments@.dom());
            self.lemma_status_change_queues(*old(self), payment_hash);
        }
        Ok(())
    }

    /// A status change of one payment, together with the matching queue
    /// adjustments, preserves the queue invariant. The caller has already
    /// established the frame conditions.
    proof fn lemma_status_change_queues(self, pre: World, payment_hash: u128)
        requires
            self.payments@.dom() == pre.payments@.dom(),
            forall|h: u128|
                h != payment_hash && pre.payments@.contains_key(h) ==> #[trigger] self.payments@[h]
                    == pre.payments@[h],
            pre.payments@.contains_key(payment_hash),
            self.payments@[payment_hash].status is Pending ==> self.pending_payment_hashes@
                == pre.pending_payment_hashes@ && pre.payments@[payment_hash].status is Pending,
            !(self.payments@[payment_hash].status is Pending)
                ==> self.pending_payment_hashes@ == seq_remove_u128(
                pre.pending_payment_hashes@,
                payment_hash,
            ) || (self.pending_payment_hashes@ == pre.pending_payment_hashes@ && !(
            pre.payments@[payment_hash].status is Pending)),
            self.payments@[payment_hash].status is Fulfilled ==> self.fulfilled_payment_hashes@
                == pre.fulfilled_payment_hashes@.push(payment_hash) || (
            self.fulfilled_payment_hashes@ == pre.fulfilled_payment_hashes@ && (
            pre.payments@[payment_hash].status is Fulfilled)),
            !(self.payments@[payment_hash].status is Fulfilled)
                ==> self.fulfilled_payment_hashes@ == seq_remove_u128(
                pre.fulfilled_payment_hashes@,
                payment_hash,
            ) || (self.fulfilled_payment_hashes@ == pre.fulfilled_payment_hashes@ && !(
            pre.payments@[payment_hash].status is Fulfilled)),
        ensures
            pre.queues_ok() ==> self.queues_ok(),
    {
        if pre.queues_ok() {
            assert forall|h: u128| #[trigger]
                self.pending_payment_hashes@.contains(h) implies self.payments@.contains_key(h)
                && self.payments@[h].status is Pending by {
                lemma_filter_contains_u128(pre.pending_payment_hashes@, payment_hash, h);
                assert(pre.pending_payment_hashes@.contains(h));
            }
            assert forall|h: u128| #[trigger]
                self.fulfilled_payment_hashes@.contains(h) implies self.payments@.contains_key(h)
                && self.payments@[h].status is Fulfilled by {
                lemma_filter_contains_u128(pre.fulfilled_payment_hashes@, payment_hash, h);
                if self.fulfilled_payment_hashes@ == pre.fulfilled_payment_hashes@.push(
                    payment_hash,
                ) {
                    let i = choose|i: int|
                        0 <= i < self.fulfilled_payment_hashes@.len()
                            && self.fulfilled_payment_hashes@[i] == h;
                    if i < pre.fulfilled_payment_hashes@.len() {
                        assert(pre.fulfilled_payment_hashes@.contains(h));
                    }
                } else {
                    assert(pre.fulfilled_payment_hashes@.contains(h));
                }
            }
            assert forall|h: u128| #[trigger]
                self.payments@.contains_key(h) implies {
                &&& (self.payments@[h].status is Pending ==> self.pending_payment_hashes@.contains(
                    h,
                ))
                &&& (self.payments@[h].status is Fulfilled
                    ==> self.fulfilled_payment_hashes@.contains(h))
            } by {
                assert(pre.payments@.contains_key(h));
                lemma_filter_contains_u128(pre.pending_payment_hashes@, payment_hash, h);
                lemma_filter_contains_u128(pre.fulfilled_payment_hashes@, payment_hash, h);
                if self.payments@[h].status is Fulfilled {
                    if self.fulfilled_payment_hashes@ == pre.fulfilled_payment_hashes@.push(
                        payment_hash,
                    ) {
                        if h == payment_hash {
                            assert(self.fulfilled_payment_hashes@.last() == h);
                        } else {
                            let i = choose|i: int|
                                0 <= i < pre.fulfilled_payment_hashes@.len()
                                    && pre.fulfilled_payment_hashes@[i] == h;
                            assert(self.fulfilled_payment_hashes@[i] == h);
                        }
                    }
                }
            }
        }
    }

    /// What `reject_payment` does: the payee turns a pending payment away;
    /// the reservation is released.
    pub open spec fn reject_payment_post(
        pre: World,
        post: World,
        sender: u64,
        payment_hash: u128,
        r: Result<(), Error>,
    ) -> bool {
        let found = pre.payments@.contains_key(payment_hash);
        let p = pre.payments@[payment_hash];
        let is_payee = found && p.payee == sender;
        let pending = p.status is Pending;
        let released = unreserve_released(pre.ledger.bal(p.currency_id, p.payer), p.amount);
        &&& r.is_ok() == (found && is_payee && pending)
        &&& if r.is_ok() {
            &&& post.payments@.dom() == pre.payments@.dom()
            &&& forall|h: u128|
                h != payment_hash && pre.payments@.contains_key(h) ==> #[trigger] post.payments@[h]
                    == pre.payments@[h]
            &&& World::payment_updated(
                p,
                post.payments@[payment_hash],
                PaymentStatus::Rejected,
                pre.now,
                sender,
            )
            &&& post.pending_payment_hashes@ == seq_remove_u128(
                pre.pending_payment_hashes@,
                payment_hash,
            )
            &&& post.fulfilled_payment_hashes == pre.fulfilled_payment_hashes
            &&& post.payments_owned == pre.payments_owned
            &&& post.latest_payment_id == pre.latest_payment_id
            &&& post.ledger.bal(p.currency_id, p.payer) == (AccountBalance {
                free: (pre.ledger.free_of(p.currency_id, p.payer) + released) as u128,
                reserved: (pre.ledger.reserved_of(p.currency_id, p.payer) - released) as u128,
            })
            &&& pre.ledger.same_except(post.ledger, p.currency_id, p.payer)
            &&& post.events@ == pre.events@.push(
                Event::PaymentRejected {
                    payment_hash,
                    payer: p.payer,
                    payee: p.payee,
                    currency_id: p.currency_id,
                    amount: p.amount,
                },
            )
            &&& World::same_env(pre, post)
            &&& World::same_currencies(pre, post)
            &&& World::same_identities(pre, post)
            &&& World::same_resolvers(pre, post)
            &&& World::same_disputes(pre, post)
        } else {
            &&& World::unchanged(pre, post)
            &&& r == Result::<(), Error>::Err(
                if !found {
                    Error::PaymentNotFound
                } else if !is_payee {
                    Error::AccessDenied
                } else {
                    Error::InvalidStatusChange
                },
            )
        }
    }

    /// Rejects a pending payment; payee only. The reservation returns to
    /// the payer.
    pub fn reject_payment(&mut self, sender: u64, payment_hash: u128) -> (r: Result<(), Error>)
        ensures
            World::reject_payment_post(*old(self), *final(self), sender, payment_hash, r),
            old(self).payments_ok() ==> final(self).payments_ok(),
    {
        let ok = match self.payments.get(payment_hash) {
            None => {
                return Err(Error::PaymentNotFound);
            },
            Some(p) => {
                if p.payee != sender {
                    return Err(Error::AccessDenied);
                }
                match p.status {
                    PaymentStatus::Pending => true,
                    _ => false,
                }
            },
        };
        if !ok {
            return Err(Error::InvalidStatusChange);
        }
        let mut p = self.payments.remove(payment_hash).unwrap();
        let (payer, payee, currency_id, amount) = (p.payer, p.payee, p.currency_id, p.amount);
        self.ledger.unreserve(currency_id, payer, amount);
        p.status = PaymentStatus::Rejected;
        p.updated_at = self.now;
        p.updated_by = sender;
        self.payments.insert(payment_hash, p);
        remove_all_u128(&mut self.pending_payment_hashes, payment_hash);
        self.events.push(
            Event::PaymentRejected { payment_hash, payer, payee, currency_id, amount },
        );
        proof {
            assert(self.payments@.dom() =~= old(self).payments@.dom());
            self.lemma_status_change_queues(*old(self), payment_hash);
        }
        Ok(())
    }

    /// What `cancel_payment` does: the payer backs out of a pending
    /// payment, or the payee out of an accepted one; the reservation is
    /// released.
    pub open spec fn cancel_payment_post(
        pre: World,
        post: World,
        sender: u64,
        payment_hash: u128,
        r: Result<(), Error>,
    ) -> bool {
        let found = pre.payments@.contains_key(payment_hash);
        let p = pre.payments@[payment_hash];
        let status_ok = p.status is Pending || p.status is Accepted;
        let authorized = (p.status is Pending && sender == p.payer) || (p.status is Accepted
            && sender == p.payee);
        let released = unreserve_released(pre.ledger.bal(p.currency_id, p.payer), p.amount);
        &&& r.is_ok() == (found && status_ok && authorized)
        &&& if r.is_ok() {
            &&& post.payments@.dom() == pre.payments@.dom()
            &&& forall|h: u128|
                h != payment_hash && pre.payments@.contains_key(h) ==> #[trigger] post.payments@[h]
                    == pre.payments@[h]
            &&& World::payment_updated(
                p,
                post.payments@[payment_hash],
                PaymentStatus::Cancelled,
                pre.now,
                sender,
            )
            &&& post.pending_payment_hashes@ == (if p.status is Pending {
                seq_remove_u128(pre.pending_payment_hashes@, payment_hash)
            } else {
                pre.pending_payment_hashes@
            })
            &&& post.fulfilled_payment_hashes == pre.fulfilled_payment_hashes
            &&& post.payments_owned == pre.payments_owned
            &&& post.latest_payment_id == pre.latest_payment_id
            &&& post.ledger.bal(p.currency_id, p.payer) == (AccountBalance {
                free: (pre.ledger.free_of(p.currency_id, p.payer) + released) as u128,
                reserved: (pre.ledger.reserved_of(p.currency_id, p.payer) - released) as u128,
            })
            &&& pre.ledger.same_except(post.ledger, p.currency_id, p.payer)
            &&& post.events@ == pre.events@.push(
                Event::PaymentCancelled {
                    payment_hash,
                    payer: p.payer,
                    payee: p.payee,
                    currency_id: p.currency_id,
                    amount: p.amount,
                },
            )
            &&& World::same_env(pre, post)
            &&& World::same_currencies(pre, post)
            &&& World::same_identities(pre, post)
            &&& World::same_resolvers(pre, post)
            &&& World::same_disputes(pre, post)
        } else {
            &&& World::unchanged(pre, post)
            &&& r == Result::<(), Error>::Err(
                if !found {
                    Error::PaymentNotFound
                } else if !status_ok {
                    Error::InvalidStatusChange
                } else {
                    Error::AccessDenied
                },
            )
        }
    }

    /// Cancels a payment: the payer while it is pending, the payee once it
    /// is accepted.
    pub fn cancel_payment(&mut self, sender: u64, payment_hash: u128) -> (r: Result<(), Error>)
        ensures
            World::cancel_payment_post(*old(self), *final(self), sender, payment_hash, r),
            old(self).payments_ok() ==> final(self).payments_ok(),
    {
        let was_pending = match self.payments.get(payment_hash) {
            None => {
                return Err(Error::PaymentNotFound);
            },
            Some(p) => {
                match p.status {
                    PaymentStatus::Pending => {
                        if sender != p.payer {
                            return Err(Error::AccessDenied);
                        }
                        true
                    },
                    PaymentStatus::Accepted => {
                        if sender != p.payee {
                            return Err(Error::AccessDenied);
                        }
                        false
                    },
                    _ => {
                        return Err(Error::InvalidStatusChange);
                    },
                }
            },
        };
        let mut p = self.payments.remove(payment_hash).unwrap();
        let (payer, payee, currency_id, amount) = (p.payer, p.payee, p.currency_id, p.amount);
        self.ledger.unreserve(currency_id, payer, amount);
        p.status = PaymentStatus::Cancelled;
        p.updated_at = self.now;
        p.updated_by = sender;
        self.payments.insert(payment_hash, p);
        if was_pending {
            remove_all_u128(&mut self.pending_payment_hashes, payment_hash);
        }
        self.events.push(
            Event::PaymentCancelled { payment_hash, payer, payee, currency_id, amount },
        );
        proof {
            assert(self.payments@.dom() =~= old(self).payments@.dom());
            self.lemma_status_change_queues(*old(self), payment_hash);
        }
        Ok(())
    }

    /// What `dispute_payment` does: either party moves an accepted or
    /// fulfilled payment under the dispute engine's ownership.
    pub open spec fn dispute_payment_post(
        pre: World,
        post: World,
        sender: u64,
        payment_hash: u128,
        r: Result<(), Error>,
    ) -> bool {
        let found = pre.payments@.contains_key(payment_hash);
        let p = pre.payments@[payment_hash];
        let status_ok = p.status is Accepted || p.status is Fulfilled;
        let authorized = sender == p.payer || sender == p.payee;
        &&& r.is_ok() == (found && status_ok && authorized)
        &&& if r.is_ok() {
            &&& post.payments@.dom() == pre.payments@.dom()
            &&& forall|h: u128|
                h != payment_hash && pre.payments@.contains_key(h) ==> #[trigger] post.payments@[h]
                    == pre.payments@[h]
            &&& World::payment_updated(
                p,
                post.payments@[payment_hash],
                PaymentStatus::Disputed,
                pre.now,
                sender,
            )
            &&& post.pending_payment_hashes == pre.pending_payment_hashes
            &&& post.fulfilled_payment_hashes@ == (if p.status is Fulfilled {
                seq_remove_u128(pre.fulfilled_payment_hashes@, payment_hash)
            } else {
                pre.fulfilled_payment_hashes@
            })
            &&& post.payments_owned == pre.payments_owned
            &&& post.latest_payment_id == pre.latest_payment_id
            &&& World::same_ledger(pre, post)
            &&& post.events@ == pre.events@.push(
                Event::PaymentDisputed {
                    payment_hash,
                    payer: p.payer,
                    payee: p.payee,
                    currency_id: p.currency_id,
                    amount: p.amount,
                },
            )
            &&& World::same_env(pre, post)
            &&& World::same_currencies(pre, post)
            &&& World::same_identities(pre, post)
            &&& World::same_resolvers(pre, post)
            &&& World::same_disputes(pre, post)
        } else {
            &&& World::unchanged(pre, post)
            &&& r == Result::<(), Error>::Err(
                if !found {
                    Error::PaymentNotFound
                } else if !status_ok {
                    Error::InvalidStatusChange
                } else {
                    Error::AccessDenied
                },
            )
        }
    }

    /// Marks a payment disputed; from then on the dispute engine owns it.
    pub fn dispute_payment(&mut self, sender: u64, payment_hash: u128) -> (r: Result<(), Error>)
        ensures
            World::dispute_payment_post(*old(self), *final(self), sender, payment_hash, r),
            old(self).payments_ok() ==> final(self).payments_ok(),
    {
        let was_fulfilled = match self.payments.get(payment_hash) {
            None => {
                return Err(Error::PaymentNotFound);
            },
            Some(p) => {
                let f = match p.status {
                    PaymentStatus::Accepted => false,
                    PaymentStatus::Fulfilled => true,
                    _ => {
                        return Err(Error::InvalidStatusChange);
                    },
                };
                if sender != p.payer && sender != p.payee {
                    return Err(Error::AccessDenied);
                }
                f
            },
        };
        let mut p = self.payments.remove(payment_hash).unwrap();
        let (payer, payee, currency_id, amount) = (p.payer, p.payee, p.currency_id, p.amount);
        p.status = PaymentStatus::Disputed;
        p.updated_at = self.now;
        p.updated_by = sender;
        self.payments.insert(payment_hash, p);
        if was_fulfilled {
            remove_all_u128(&mut self.fulfilled_payment_hashes, payment_hash);
        }
        self.events.push(
            Event::PaymentDisputed { payment_hash, payer, payee, currency_id, amount },
        );
        proof {
            assert(self.payments@.dom() =~= old(self).payments@.dom());
            self.lemma_status_change_queues(*old(self), payment_hash);
        }
        Ok(())
    }

    /// What `full_fill_payment` does: the payee marks an accepted payment
    /// delivered; it joins the auto-completion queue.
    pub open spec fn full_fill_payment_post(
        pre: World,
        post: World,
        sender: u64,
        payment_hash: u128,
        r: Result<(), Error>,
    ) -> bool {
        let found = pre.payments@.contains_key(payment_hash);
        let p = pre.payments@[payment_hash];
        let is_payee = found && p.payee == sender;
        let accepted = p.status is Accepted;
        &&& r.is_ok() == (found && is_payee && accepted)
        &&& if r.is_ok() {
            &&& post.payments@.dom() == pre.payments@.dom()
            &&& forall|h: u128|
                h != payment_hash && pre.payments@.contains_key(h) ==> #[trigger] post.payments@[h]
                    == pre.payments@[h]
            &&& World::payment_updated(
                p,
                post.payments@[payment_hash],
                PaymentStatus::Fulfilled,
                pre.now,
                sender,
            )
            &&& post.pending_payment_hashes == pre.pending_payment_hashes
            &&& post.fulfilled_payment_hashes@ == pre.fulfilled_payment_hashes@.push(payment_hash)
            &&& post.payments_owned == pre.payments_owned
            &&& post.latest_payment_id == pre.latest_payment_id
            &&& World::same_ledger(pre, post)
            &&& post.events@ == pre.events@.push(
                Event::PaymentFulfilled {
                    payment_hash,
                    payer: p.payer,
                    payee: p.payee,
                    currency_id: p.currency_id,
                    amount: p.amount,
                },
            )
            &&& World::same_env(pre, post)
            &&& World::same_currencies(pre, post)
            &&& World::same_identities(pre, post)
            &&& World::same_resolvers(pre, post)
            &&& World::same_disputes(pre, post)
        } else {
            &&& World::unchanged(pre, post)
            &&& r == Result::<(), Error>::Err(
                if !found {
                    Error::PaymentNotFound
                } else if !is_payee {
                    Error::AccessDenied
                } else {
                    Error::InvalidStatusChange
                },
            )
        }
    }

    /// Marks an accepted payment fulfilled; payee only.
    pub fn full_fill_payment(&mut self, sender: u64, payment_hash: u128) -> (r: Result<(), Error>)
        ensures
            World::full_fill_payment_post(*old(self), *final(self), sender, payment_hash, r),
            old(self).payments_ok() ==> final(self).payments_ok(),
    {
        let ok = match self.payments.get(payment_hash) {
            None => {
                return Err(Error::PaymentNotFound);
            },
            Some(p) => {
                if p.payee != sender {
                    return Err(Error::AccessDenied);
                }
                match p.status {
                    PaymentStatus::Accepted => true,
                    _ => false,
                }
            },
        };
        if !ok {
            return Err(Error::InvalidStatusChange);
        }
        let mut p = self.payments.remove(payment_hash).unwrap();
        let (payer, payee, currency_id, amount) = (p.payer, p.payee, p.currency_id, p.amount);
        p.status = PaymentStatus::Fulfilled;
        p.updated_at = self.now;
        p.updated_by = sender;
        self.payments.insert(payment_hash, p);
        self.fulfilled_payment_hashes.push(payment_hash);
        self.events.push(
            Event::PaymentFulfilled { payment_hash, payer, payee, currency_id, amount },
        );
        proof {
            assert(self.payments@.dom() =~= old(self).payments@.dom());
            self.lemma_status_change_queues(*old(self), payment_hash);
        }
        Ok(())
    }

    /// What `complete_payment` does: the payer settles a fulfilled payment;
    /// the escrow is released and transferred to the payee.
    pub open spec fn complete_payment_post(
        pre: World,
        post: World,
        sender: u64,
        payment_hash: u128,
        r: Result<(), Error>,
    ) -> bool {
        let found = pre.payments@.contains_key(payment_hash);
        let p = pre.payments@[payment_hash];
        let is_payer = found && p.payer == sender;
        let fulfilled = p.status is Fulfilled;
        let released = unreserve_released(pre.ledger.bal(p.currency_id, p.payer), p.amount);
        let mid_free = (pre.ledger.free_of(p.currency_id, p.payer) + released) as u128;
        let can_transfer = mid_free >= p.amount && (p.payer != p.payee
            ==> pre.ledger.free_of(p.currency_id, p.payee) + p.amount <= u128::MAX);
        &&& r.is_ok() == (found && is_payer && fulfilled && can_transfer)
        &&& if r.is_ok() {
            &&& post.payments@.dom() == pre.payments@.dom()
            &&& forall|h: u128|
                h != payment_hash && pre.payments@.contains_key(h) ==> #[trigger] post.payments@[h]
                    == pre.payments@[h]
            &&& World::payment_updated(
                p,
                post.payments@[payment_hash],
                PaymentStatus::Completed,
                pre.now,
                sender,
            )
            &&& post.pending_payment_hashes == pre.pending_payment_hashes
            &&& post.fulfilled_payment_hashes@ == seq_remove_u128(
                pre.fulfilled_payment_hashes@,
                payment_hash,
            )
            &&& post.payments_owned == pre.payments_owned
            &&& post.latest_payment_id == pre.latest_payment_id
            &&& (if p.payer != p.payee {
                &&& post.ledger.bal(p.currency_id, p.payer) == (AccountBalance {
                    free: (mid_free - p.amount) as u128,
                    reserved: (pre.ledger.reserved_of(p.currency_id, p.payer) - released) as u128,
                })
                &&& post.ledger.bal(p.currency_id, p.payee) == (AccountBalance {
                    free: (pre.ledger.free_of(p.currency_id, p.payee) + p.amount) as u128,
                    reserved: pre.ledger.reserved_of(p.currency_id, p.payee),
                })
                &&& pre.ledger.same_except2(post.ledger, p.currency_id, p.payer, p.payee)
            } else {
                &&& post.ledger.bal(p.currency_id, p.payer) == (AccountBalance {
                    free: mid_free,
                    reserved: (pre.ledger.reserved_of(p.currency_id, p.payer) - released) as u128,
                })
                &&& pre.ledger.same_except(post.ledger, p.currency_id, p.payer)
            })
            &&& post.events@ == pre.events@.push(
                Event::PaymentCompleted {
                    payment_hash,
                    payer: p.payer,
                    payee: p.payee,
                    currency_id: p.currency_id,
                    amount: p.amount,
                },
            )
            &&& World::same_env(pre, post)
            &&& World::same_currencies(pre, post)
            &&& World::same_identities(pre, post)
            &&& World::same_resolvers(pre, post)
            &&& World::same_disputes(pre, post)
        } else {
            &&& World::unchanged(pre, post)
            &&& r == Result::<(), Error>::Err(
                if !found {
                    Error::PaymentNotFound
                } else if !is_payer {
                    Error::AccessDenied
                } else if !fulfilled {
                    Error::InvalidStatusChange
                } else if mid_free < p.amount {
                    Error::InsufficientBalance
                } else {
                    Error::Overflow
                },
            )
        }
    }

    /// Completes a fulfilled payment; payer only. The escrow moves to the
    /// payee.
    pub fn complete_payment(&mut self, sender: u64, payment_hash: u128) -> (r: Result<(), Error>)
        ensures
            World::complete_payment_post(*old(self), *final(self), sender, payment_hash, r),
            old(self).payments_ok() ==> final(self).payments_ok(),
    {
        let ok = match self.payments.get(payment_hash) {
            None => {
                return Err(Error::PaymentNotFound);
            },
            Some(p) => {
                if p.payer != sender {
                    return Err(Error::AccessDenied);
                }
                match p.status {
                    PaymentStatus::Fulfilled => true,
                    _ => false,
                }
            },
        };
        if !ok {
            return Err(Error::InvalidStatusChange);
        }
        let (payer, payee, currency_id, amount) = match self.payments.get(payment_hash) {
            Some(p) => (p.payer, p.payee, p.currency_id, p.amount),
            None => {
                return Err(Error::PaymentNotFound);
            },
        };
        // Decide feasibility of the whole settlement before touching state.
        let bal = self.ledger.reserved_balance(currency_id, payer);
        let free = self.ledger.free_balance(currency_id, payer);
        let released = if amount <= bal {
            amount
        } else {
            bal
        };
        let released = if released > u128::MAX - free {
            u128::MAX - free
        } else {
            released
        };
        let mid_free = free + released;
        if mid_free < amount {
            return Err(Error::InsufficientBalance);
        }
        if payer != payee && amount > u128::MAX - self.ledger.free_balance(currency_id, payee) {
            return Err(Error::Overflow);
        }
        self.ledger.unreserve(currency_id, payer, amount);
        match self.ledger.transfer(currency_id, payer, payee, amount) {
            Ok(()) => {},
            Err(_) => {
                proof {
                    assert(false);
                }
            },
        }
        let mut p = self.payments.remove(payment_hash).unwrap();
        p.status = PaymentStatus::Completed;
        p.updated_at = self.now;
        p.updated_by = sender;
        self.payments.insert(payment_hash, p);
        remove_all_u128(&mut self.fulfilled_payment_hashes, payment_hash);
        self.events.push(
            Event::PaymentCompleted { payment_hash, payer, payee, currency_id, amount },
        );
        proof {
            assert(self.payments@.dom() =~= old(self).payments@.dom());
            self.lemma_status_change_queues(*old(self), payment_hash);
        }
        Ok(())
    }

    /// Whether the expiry sweep is due for `h` on world `w`: a pending
    /// payment whose waiting time has passed.
    pub open spec fn expire_due(w: World, h: u128) -> bool {
        &&& w.payments@.contains_key(h)
        &&& w.payments@[h].status is Pending
        &&& (w.payments@[h].updated_at as int) + (w.config.pending_payment_waiting_time as int) < (
        w.now as int)
    }

    /// One step of the expiry sweep: a due pending payment is expired and
    /// its reservation released; anything else is left alone.
    pub open spec fn expire_step(w: World, h: u128, w2: World) -> bool {
        if World::expire_due(w, h) {
            let p = w.payments@[h];
            let released = unreserve_released(w.ledger.bal(p.currency_id, p.payer), p.amount);
            &&& w2.payments@.dom() == w.payments@.dom()
            &&& forall|k: u128|
                k != h && w.payments@.contains_key(k) ==> #[trigger] w2.payments@[k]
                    == w.payments@[k]
            &&& World::payment_updated(p, w2.payments@[h], PaymentStatus::Expired, w.now, p.updated_by)
            &&& w2.pending_payment_hashes@ == seq_remove_u128(w.pending_payment_hashes@, h)
            &&& w2.fulfilled_payment_hashes == w.fulfilled_payment_hashes
            &&& w2.payments_owned == w.payments_owned
            &&& w2.latest_payment_id == w.latest_payment_id
            &&& w2.ledger.bal(p.currency_id, p.payer) == (AccountBalance {
                free: (w.ledger.free_of(p.currency_id, p.payer) + released) as u128,
                reserved: (w.ledger.reserved_of(p.currency_id, p.payer) - released) as u128,
            })
            &&& w.ledger.same_except(w2.ledger, p.currency_id, p.payer)
            &&& w2.events@ == w.events@.push(
                Event::PaymentExpired {
                    payment_hash: h,
                    payer: p.payer,
                    payee: p.payee,
                    currency_id: p.currency_id,
                    amount: p.amount,
                },
            )
            &&& World::same_env(w, w2)
            &&& World::same_currencies(w, w2)
            &&& World::same_identities(w, w2)
            &&& World::same_resolvers(w, w2)
            &&& World::same_disputes(w, w2)
        } else {
            w2 == w
        }
    }

    /// The expiry sweep as a whole: the fold of `expire_step` over the
    /// snapshot of the pending queue, in order.
    pub open spec fn expire_chain(pre: World, hs: Seq<u128>, post: World) -> bool {
        exists|ws: Seq<World>|
            {
                &&& ws.len() == hs.len() + 1
                &&& ws[0] == pre
                &&& ws[hs.len() as int] == post
                &&& forall|i: int|
                    0 <= i < hs.len() ==> World::expire_step(#[trigger] ws[i], hs[i], ws[i + 1])
            }
    }

    /// The per-block expiry pass: walks the pending queue and expires every
    /// payment whose waiting time has passed, releasing its reservation.
    pub fn evaluate_pending_payments(&mut self)
        ensures
            World::expire_chain(
                *old(self),
                old(self).pending_payment_hashes@,
                *final(self),
            ),
            old(self).payments_ok() ==> final(self).payments_ok(),
            World::same_env(*old(self), *final(self)),
            World::same_currencies(*old(self), *final(self)),
            World::same_identities(*old(self), *final(self)),
            World::same_resolvers(*old(self), *final(self)),
            World::same_disputes(*old(self), *final(self)),
    {
        let snapshot = copy_u128s(&self.pending_payment_hashes);
        let ghost mut ws: Seq<World> = seq![*old(self)];
        let mut i: usize = 0;
        while i < snapshot.len()
            invariant
                i <= snapshot@.len(),
                snapshot@ == old(self).pending_payment_hashes@,
                ws.len() == i + 1,
                ws[0] == *old(self),
                ws[i as int] == *self,
                forall|j: int|
                    0 <= j < i ==> World::expire_step(#[trigger] ws[j], snapshot@[j], ws[j + 1]),
                old(self).payments_ok() ==> self.payments_ok(),
                World::same_env(*old(self), *self),
                World::same_currencies(*old(self), *self),
                World::same_identities(*old(self), *self),
                World::same_resolvers(*old(self), *self),
                World::same_disputes(*old(self), *self),
            decreases snapshot@.len() - i,
        {
            let ghost wprev = *self;
            let h = snapshot[i];
            let due = match self.payments.get(h) {
                None => false,
                Some(p) => {
                    match p.status {
                        PaymentStatus::Pending => ((p.updated_at as u128)
                            + (self.config.pending_payment_waiting_time as u128)) < (
                        self.now as u128),
                        _ => false,
                    }
                },
            };
            if due {
                let mut p = self.payments.remove(h).unwrap();
                let (payer, payee, currency_id, amount) = (
                    p.payer,
                    p.payee,
                    p.currency_id,
                    p.amount,
                );
                self.ledger.unreserve(currency_id, payer, amount);
                p.status = PaymentStatus::Expired;
                p.updated_at = self.now;
                self.payments.insert(h, p);
                remove_all_u128(&mut self.pending_payment_hashes, h);
                self.events.push(
                    Event::PaymentExpired { payment_hash: h, payer, payee, currency_id, amount },
                );
                proof {
                    assert(self.payments@.dom() =~= wprev.payments@.dom());
                    self.lemma_status_change_queues(wprev, h);
                }
            }
            proof {
                assert(World::expire_step(wprev, h, *self));
                ws = ws.push(*self);
            }
            i = i + 1;
        }
        proof {
            assert(World::expire_chain(*old(self), old(self).pending_payment_hashes@, *self)) by {
                assert(ws.len() == old(self).pending_payment_hashes@.len() + 1 && ws[0] == *old(
                    self,
                ) && ws[old(self).pending_payment_hashes@.len() as int] == *self && forall|j: int|
                    0 <= j < old(self).pending_payment_hashes@.len() ==> World::expire_step(
                        #[trigger] ws[j],
                        old(self).pending_payment_hashes@[j],
                        ws[j + 1],
                    ));
            }
        }
    }

    /// Whether the auto-completion sweep is due for `h` on world `w`: a
    /// fulfilled payment whose waiting time has passed and whose settlement
    /// fits the ledger. An entry whose settlement does not fit stays queued
    /// for a later block rather than aborting the sweep.
    pub open spec fn auto_complete_due(w: World, h: u128) -> bool {
        let p = w.payments@[h];
        let released = unreserve_released(w.ledger.bal(p.currency_id, p.payer), p.amount);
        let mid_free = (w.ledger.free_of(p.currency_id, p.payer) + released) as u128;
        &&& w.payments@.contains_key(h)
        &&& p.status is Fulfilled
        &&& (p.updated_at as int) + (w.config.fulfilled_payment_waiting_time as int) < (
        w.now as int)
        &&& mid_free >= p.amount
        &&& (p.payer != p.payee ==> w.ledger.free_of(p.currency_id, p.payee) + p.amount
            <= u128::MAX)
    }

    /// One step of the auto-completion sweep: a due fulfilled payment is
    /// completed, its escrow released and transferred to the payee.
    pub open spec fn auto_complete_step(w: World, h: u128, w2: World) -> bool {
        if World::auto_complete_due(w, h) {
            let p = w.payments@[h];
            let released = unreserve_released(w.ledger.bal(p.currency_id, p.payer), p.amount);
            let mid_free = (w.ledger.free_of(p.currency_id, p.payer) + released) as u128;
            &&& w2.payments@.dom() == w.payments@.dom()
            &&& forall|k: u128|
                k != h && w.payments@.contains_key(k) ==> #[trigger] w2.payments@[k]
                    == w.payments@[k]
            &&& World::payment_updated(
                p,
                w2.payments@[h],
                PaymentStatus::Completed,
                w.now,
                p.updated_by,
            )
            &&& w2.pending_payment_hashes == w.pending_payment_hashes
            &&& w2.fulfilled_payment_hashes@ == seq_remove_u128(w.fulfilled_payment_hashes@, h)
            &&& w2.payments_owned == w.payments_owned
            &&& w2.latest_payment_id == w.latest_payment_id
            &&& (if p.payer != p.payee {
                &&& w2.ledger.bal(p.currency_id, p.payer) == (AccountBalance {
                    free: (mid_free - p.amount) as u128,
                    reserved: (w.ledger.reserved_of(p.currency_id, p.payer) - released) as u128,
                })
                &&& w2.ledger.bal(p.currency_id, p.payee) == (AccountBalance {
                    free: (w.ledger.free_of(p.currency_id, p.payee) + p.amount) as u128,
                    reserved: w.ledger.reserved_of(p.currency_id, p.payee),
                })
                &&& w.ledger.same_except2(w2.ledger, p.currency_id, p.payer, p.payee)
            } else {
                &&& w2.ledger.bal(p.currency_id, p.payer) == (AccountBalance {
                    free: mid_free,
                    reserved: (w.ledger.reserved_of(p.currency_id, p.payer) - released) as u128,
                })
                &&& w.ledger.same_except(w2.ledger, p.currency_id, p.payer)
            })
            &&& w2.events@ == w.events@.push(
                Event::PaymentCompleted {
                    payment_hash: h,
                    payer: p.payer,
                    payee: p.payee,
                    currency_id: p.currency_id,
                    amount: p.amount,
                },
            )
            &&& World::same_env(w, w2)
            &&& World::same_currencies(w, w2)
            &&& World::same_identities(w, w2)
            &&& World::same_resolvers(w, w2)
            &&& World::same_disputes(w, w2)
        } else {
            w2 == w
        }
    }

    /// The auto-completion sweep as a whole: the fold of
    /// `auto_complete_step` over the snapshot of the fulfilled queue.
    pub open spec fn auto_complete_chain(pre: World, hs: Seq<u128>, post: World) -> bool {
        exists|ws: Seq<World>|
            {
                &&& ws.len() == hs.len() + 1
                &&& ws[0] == pre
                &&& ws[hs.len() as int] == post
                &&& forall|i: int|
                    0 <= i < hs.len() ==> World::auto_complete_step(
                        #[trigger] ws[i],
                        hs[i],
                        ws[i + 1],
                    )
            }
    }

    /// The per-block auto-completion pass: walks the fulfilled queue and
    /// completes every payment whose waiting time has passed.
    pub fn evaluate_full_filled_payments(&mut self)
        ensures
            World::auto_complete_chain(
                *old(self),
                old(self).fulfilled_payment_hashes@,
                *final(self),
            ),
            old(self).payments_ok() ==> final(self).payments_ok(),
            World::same_env(*old(self), *final(self)),
            World::same_currencies(*old(self), *final(self)),
            World::same_identities(*old(self), *final(self)),
            World::same_resolvers(*old(self), *final(self)),
            World::same_disputes(*old(self), *final(self)),
    {
        let snapshot = copy_u128s(&self.fulfilled_payment_hashes);
        let ghost mut ws: Seq<World> = seq![*old(self)];
        let mut i: usize = 0;
        while i < snapshot.len()
            invariant
                i <= snapshot@.len(),
                snapshot@ == old(self).fulfilled_payment_hashes@,
                ws.len() == i + 1,
                ws[0] == *old(self),
                ws[i as int] == *self,
                forall|j: int|
                    0 <= j < i ==> World::auto_complete_step(
                        #[trigger] ws[j],
                        snapshot@[j],
                        ws[j + 1],
                    ),
                old(self).payments_ok() ==> self.payments_ok(),
                World::same_env(*old(self), *self),
                World::same_currencies(*old(self), *self),
                World::same_identities(*old(self), *self),
                World::same_resolvers(*old(self), *self),
                World::same_disputes(*old(self), *self),
            decreases snapshot@.len() - i,
        {
            let ghost wprev = *self;
            let h = snapshot[i];
            let info = match self.payments.get(h) {
                None => None,
                Some(p) => {
                    match p.status {
                        PaymentStatus::Fulfilled => {
                            if ((p.updated_at as u128)
                                + (self.config.fulfilled_payment_waiting_time as u128)) < (
                            self.now as u128) {
                                Some((p.payer, p.payee, p.currency_id, p.amount))
                            } else {
                                None
                            }
                        },
                        _ => None,
                    }
                },
            };
            let due = match info {
                None => false,
                Some((payer, payee, currency_id, amount)) => {
                    let reserved = self.ledger.reserved_balance(currency_id, payer);
                    let free = self.ledger.free_balance(currency_id, payer);
                    let released = if amount <= reserved {
                        amount
                    } else {
                        reserved
                    };
                    let released = if released > u128::MAX - free {
                        u128::MAX - free
                    } else {
                        released
                    };
                    free + released >= amount && (payer == payee || amount <= u128::MAX
                        - self.ledger.free_balance(currency_id, payee))
                },
            };
            if due {
                let mut p = self.payments.remove(h).unwrap();
                let (payer, payee, currency_id, amount) = (
                    p.payer,
                    p.payee,
                    p.currency_id,
                    p.amount,
                );
                self.ledger.unreserve(currency_id, payer, amount);
                match self.ledger.transfer(currency_id, payer, payee, amount) {
                    Ok(()) => {},
                    Err(_) => {
                        proof {
                            assert(false);
                        }
                    },
                }
                p.status = PaymentStatus::Completed;
                p.updated_at = self.now;
                self.payments.insert(h, p);
                remove_all_u128(&mut self.fulfilled_payment_hashes, h);
                self.events.push(
                    Event::PaymentCompleted { payment_hash: h, payer, payee, currency_id, amount },
                );
                proof {
                    assert(self.payments@.dom() =~= wprev.payments@.dom());
                    self.lemma_status_change_queues(wprev, h);
                }
            }
            proof {
                assert(World::auto_complete_step(wprev, h, *self));
                ws = ws.push(*self);
            }
            i = i + 1;
        }
        proof {
            assert(World::auto_complete_chain(
                *old(self),
                old(self).fulfilled_payment_hashes@,
                *self,
            )) by {
                assert(ws.len() == old(self).fulfilled_payment_hashes@.len() + 1 && ws[0] == *old(
                    self,
                ) && ws[old(self).fulfilled_payment_hashes@.len() as int] == *self && forall|
                    j: int,
                |
                    0 <= j < old(self).fulfilled_payment_hashes@.len() ==> World::auto_complete_step(
                        #[trigger] ws[j],
                        old(self).fulfilled_payment_hashes@[j],
                        ws[j + 1],
                    ));
            }
        }
    }

    /// The parties, amount and currency of a payment.
    pub fn get_payment(&self, payment_hash: u128) -> (r: Result<(u64, u64, u128, CurrencyId), Error>)
        ensures
            match r {
                Ok(t) => self.payments@.contains_key(payment_hash) && t == (
                self.payments@[payment_hash].payer,
                self.payments@[payment_hash].payee,
                self.payments@[payment_hash].amount,
                self.payments@[payment_hash].currency_id,
                ),
                Err(e) => !self.payments@.contains_key(payment_hash) && e
                    == Error::PaymentNotFound,
            },
    {
        match self.payments.get(payment_hash) {
            None => Err(Error::PaymentNotFound),
            Some(p) => Ok((p.payer, p.payee, p.amount, p.currency_id)),
        }
    }

    /// Whether a dispute may be opened over this payment.
    pub open spec fn can_dispute_spec(self, payment_hash: u128) -> bool {
        &&& self.payments@.contains_key(payment_hash)
        &&& (self.payments@[payment_hash].status is Accepted
            || self.payments@[payment_hash].status is Fulfilled)
    }

    /// A dispute may be opened iff the payment is accepted or fulfilled.
    pub fn can_dispute(&self, payment_hash: u128) -> (r: bool)
        ensures
            r == self.can_dispute_spec(payment_hash),
    {
        match self.payments.get(payment_hash) {
            None => false,
            Some(p) => {
                match p.status {
                    PaymentStatus::Accepted => true,
                    PaymentStatus::Fulfilled => true,
                    _ => false,
                }
            },
        }
    }

    /// A freshly created payment is backed by the ledger: right after
    /// `create_payment` succeeds, the payer's reserved balance in the
    /// payment's currency covers the payment's amount, and grew by exactly
    /// that amount. Accepting and fulfilling leave the ledger alone, so the
    /// cover stands until a terminal transition or a dispute settlement
    /// releases it.
    pub proof fn lemma_escrow_backs_new_payment(
        w0: World,
        w1: World,
        payer: u64,
        payee: u64,
        amount: u128,
        currency_id: CurrencyId,
        description: Vec<u8>,
        receipt: Seq<u8>,
    )
        requires
            World::create_payment_post(
                w0,
                w1,
                payer,
                payee,
                amount,
                currency_id,
                description,
                receipt,
                Ok(()),
            ),
        ensures
            w1.ledger.reserved_of(currency_id, payer) >= amount,
            w1.ledger.reserved_of(currency_id, payer) == w0.ledger.reserved_of(
                currency_id,
                payer,
            ) + amount,
    {
    }

    /// The payment round trip `create → accept → fulfill → complete`
    /// transfers exactly `amount` from payer to payee and leaves the
    /// payer's reservation where it started.
    pub proof fn lemma_payment_round_trip(
        w0: World,
        w1: World,
        w2: World,
        w3: World,
        w4: World,
        payer: u64,
        payee: u64,
        amount: u128,
        currency_id: CurrencyId,
        description: Vec<u8>,
        receipt: Seq<u8>,
        h: u128,
    )
        requires
            payer != payee,
            World::create_payment_post(
                w0,
                w1,
                payer,
                payee,
                amount,
                currency_id,
                description,
                receipt,
                Ok(()),
            ),
            h == payment_key(
                (w0.latest_payment_id + 1) as u64,
                payment_content_digest(
                    (w0.latest_payment_id + 1) as u64,
                    payer,
                    payee,
                    amount,
                    currency_id,
                    description@,
                    crate::hashing::digest_of(receipt) as u64,
                    w0.now,
                ),
            ),
            World::accept_payment_post(w1, w2, payee, h, Ok(())),
            World::full_fill_payment_post(w2, w3, payee, h, Ok(())),
            World::complete_payment_post(w3, w4, payer, h, Ok(())),
        ensures
            w4.ledger.free_of(currency_id, payer) == w0.ledger.free_of(currency_id, payer)
                - amount,
            w4.ledger.reserved_of(currency_id, payer) == w0.ledger.reserved_of(
                currency_id,
                payer,
            ),
            w4.ledger.free_of(currency_id, payee) == w0.ledger.free_of(currency_id, payee)
                + amount,
            w4.ledger.reserved_of(currency_id, payee) == w0.ledger.reserved_of(
                currency_id,
                payee,
            ),
            w4.payments@[h].status is Completed,
    {
        assert(w1.payments@[h].amount == amount);
        assert(w1.ledger.bal(currency_id, payee) == w0.ledger.bal(currency_id, payee));
        assert(w3.ledger == w1.ledger);
        assert(w3.payments@[h].amount == amount);
        assert(w3.payments@[h].payer == payer);
        assert(w3.payments@[h].payee == payee);
        assert(w3.payments@[h].currency_id == currency_id);
    }

    /// The payment stored under a key, if any.
    pub fn payment(&self, payment_hash: u128) -> (r: Option<&Payment>)
        ensures
            match r {
                Some(p) => self.payments@.contains_key(payment_hash) && *p
                    == self.payments@[payment_hash],
                None => !self.payments@.contains_key(payment_hash),
            },
    {
        self.payments.get(payment_hash)
    }

    /// The keys of the payments `who` has created, in creation order.
    pub fn payments_owned_by(&self, who: u64) -> (r: Vec<u128>)
        ensures
            r@ == (if self.payments_owned@.contains_key(who as u128) {
                self.payments_owned@[who as u128]@
            } else {
                Seq::<u128>::empty()
            }),
    {
        match self.payments_owned.get(who as u128) {
            None => Vec::new(),
            Some(l) => copy_u128s(l),
        }
    }
}

} // verus!
