//! The registration lifecycle: the two-phase register/renew flow, the
//! subdomain flow, legacy-name migration, and ownership transfer.
//!
//! A paid operation runs in two phases. Phase one validates the request and
//! captures it in the pending-request table; the host then performs the
//! asynchronous exchange-rate round trip. Phase two, the callback, takes the
//! round trip's outcome and either completes the mutation exactly once or
//! fails cleanly, leaving every store untouched.

use vstd::prelude::*;
use vstd::pervasive::VecAdditionalExecFns;

use crate::assoc::{
    assoc_get, assoc_has, lemma_assoc_push, lemma_assoc_remove, lemma_assoc_update, unique_keys,
};
use crate::constants::{GRACE_PERIOD, MIGRATION_PERIOD, SEPARATOR, SUB_DOMAIN_COST_USD};
use crate::data::{
    AccountId, DomainName, NameFault, NftEntry, Payment, PendingEntry, PendingRequest, Profile,
    RegistryError, Reservation, Settlement, SocialMedia, SubDomain, TextRecord, Wallets,
};
use crate::fees::{period_seconds, rent_price, rent_price_fits, spec_rent_price, spec_unit_seconds};
use crate::name::{
    append_bytes, canonical_tld, canonical_tld_bytes, get_primary_domain, spec_primary,
    spec_split, spec_validate, split_domain_name, validate_name, views_of,
};
use crate::registry::{
    domain_key, nft_key, pending_key, reservation_key, sub_domain_key, Registry,
};
use crate::settlement::{
    first_native_amount, refund_with_detail, settle_excess, spec_foreign, spec_tendered,
};

verus! {

/// The pending entry with correlation id `id` is gone and every other entry
/// and the id counter are untouched.
pub open spec fn pending_consumed(a: Registry, b: Registry, id: u64) -> bool {
    &&& b.spec_pending(id) == None::<PendingRequest>
    &&& forall|j: u64| j != id ==> b.spec_pending(j) == a.spec_pending(j)
    &&& b.next_request_id == a.next_request_id
}

/// Only the pending table, the rate cache, the domain records and the
/// certificate ledger may differ between `a` and `b`.
pub open spec fn register_frame(a: Registry, b: Registry) -> bool {
    b == (Registry {
        pending: b.pending,
        egld_usd_price: b.egld_usd_price,
        domains: b.domains,
        nft_owners: b.nft_owners,
        next_nft_nonce: b.next_nft_nonce,
        ..a
    })
}

/// The domain records and the certificate ledger are untouched.
pub open spec fn registration_stores_unchanged(a: Registry, b: Registry) -> bool {
    &&& b.domains == a.domains
    &&& b.nft_owners == a.nft_owners
    &&& b.next_nft_nonce == a.next_nft_nonce
}

/// A successful settlement: exactly the excess of the tendered native amount
/// over the price goes back to the payer, with every non-native component.
pub open spec fn settlement_ok(
    r: Result<Settlement, RegistryError>,
    recipient: AccountId,
    excess: int,
    payments: Seq<Payment>,
) -> bool {
    match r {
        Ok(s) => s.recipient == recipient && s.excess == excess && s.returned@ == spec_foreign(
            payments,
        ),
        Err(_) => false,
    }
}

/// A renewal: the record of `name` keeps its certificate and metadata and
/// its expiry moves to `new_expires`; nothing else changes.
pub open spec fn renewal_effect(
    a: Registry,
    b: Registry,
    name: Seq<u8>,
    old_rec: DomainName,
    new_expires: u64,
) -> bool {
    &&& match b.spec_domain(name) {
        Some(d) => d.name == old_rec.name && d.expires_at == new_expires && d.nft_nonce
            == old_rec.nft_nonce && d.profile == old_rec.profile && d.social_media
            == old_rec.social_media && d.text_record == old_rec.text_record && d.wallets
            == old_rec.wallets,
        None => false,
    }
    &&& forall|n: Seq<u8>| n != name ==> b.spec_domain(n) == a.spec_domain(n)
    &&& b.nft_owners == a.nft_owners
    &&& b.next_nft_nonce == a.next_nft_nonce
}

/// A fresh claim: `name` is bound to a bare record expiring at `expires`,
/// linked to a newly minted certificate held by `recipient`.
pub open spec fn fresh_claim_effect(
    a: Registry,
    b: Registry,
    name: Seq<u8>,
    expires: u64,
    recipient: AccountId,
) -> bool {
    &&& match b.spec_domain(name) {
        Some(d) => d.name@ == name && d.expires_at == expires && d.nft_nonce == a.next_nft_nonce
            && d.profile == None::<Profile> && d.social_media == None::<SocialMedia>
            && d.text_record == None::<Vec<TextRecord>> && d.wallets == None::<Wallets>,
        None => false,
    }
    &&& forall|n: Seq<u8>| n != name ==> b.spec_domain(n) == a.spec_domain(n)
    &&& b.next_nft_nonce == a.next_nft_nonce + 1
    &&& b.spec_nft_owner(a.next_nft_nonce) == Some(recipient)
    &&& forall|m: u64| m != a.next_nft_nonce ==> b.spec_nft_owner(m) == a.spec_nft_owner(m)
}

/// Whether a subdomain entry hangs under the primary domain `name`.
pub open spec fn sub_under_primary(e: SubDomain, name: Seq<u8>) -> bool {
    spec_split(e.name@).len() >= 2 && spec_primary(e.name@) == name
}

impl Registry {
    /// Mints a fresh ownership certificate to `owner` and returns its nonce.
    /// Minting requires the certificate token to be issued.
    pub fn mint_nft(&mut self, owner: AccountId) -> (nonce: u64)
        requires
            old(self).wf(),
            old(self).next_nft_nonce < u64::MAX,
            old(self).domain_nft_token is Some,
        ensures
            final(self).wf(),
            nonce == old(self).next_nft_nonce,
            final(self).next_nft_nonce == old(self).next_nft_nonce + 1,
            final(self).spec_nft_owner(nonce) == Some(owner),
            forall|m: u64| m != nonce ==> final(self).spec_nft_owner(m) == old(self).spec_nft_owner(m),
            *final(self) == (Registry {
                nft_owners: final(self).nft_owners,
                next_nft_nonce: final(self).next_nft_nonce,
                ..*old(self)
            }),
    {
        let nonce = self.next_nft_nonce;
        let entry = NftEntry { nonce, owner };
        proof {
            assert forall|j: int|
                0 <= j < self.nft_owners@.len() implies nft_key()(
                #[trigger] self.nft_owners@[j],
            ) != nonce by {}
            assert(!assoc_has(self.nft_owners@, nft_key(), nonce));
            lemma_assoc_push(self.nft_owners@, nft_key(), entry);
        }
        self.nft_owners.push(entry);
        self.next_nft_nonce = nonce + 1;
        nonce
    }

    /// Whether the certificate token has been issued, which every mint
    /// requires.
    pub fn require_token_issued(&self) -> (r: Result<(), RegistryError>)
        ensures
            r == (if self.domain_nft_token is Some {
                Ok::<(), RegistryError>(())
            } else {
                Err::<(), RegistryError>(RegistryError::ExternalCallFailed)
            }),
    {
        if self.domain_nft_token.is_some() {
            Ok(())
        } else {
            Err(RegistryError::ExternalCallFailed)
        }
    }

    /// Whether `owner` currently holds the certificate with nonce `nonce`.
    pub fn is_owner_of_nft(&self, owner: AccountId, nonce: u64) -> (r: bool)
        requires
            self.wf(),
        ensures
            r == (self.spec_nft_owner(nonce) == Some(owner)),
    {
        match self.find_nft(nonce) {
            Some(i) => self.nft_owners[i].owner == owner,
            None => false,
        }
    }

    /// Destroys the certificate with nonce `nonce`, removing it from the
    /// ledger.
    pub fn burn_nft(&mut self, nonce: u64) -> (r: Result<(), RegistryError>)
        requires
            old(self).wf(),
        ensures
            final(self).wf(),
            match r {
                Ok(()) => old(self).spec_nft_owner(nonce) is Some && final(self).spec_nft_owner(
                    nonce,
                ) == None::<AccountId> && (forall|m: u64|
                    m != nonce ==> final(self).spec_nft_owner(m) == old(self).spec_nft_owner(m))
                    && *final(self) == (Registry { nft_owners: final(self).nft_owners, ..*old(self) }),
                Err(e) => e == RegistryError::NotFound && old(self).spec_nft_owner(nonce)
                    == None::<AccountId> && *final(self) == *old(self),
            },
    {
        match self.find_nft(nonce) {
            Some(i) => {
                proof {
                    lemma_assoc_remove(self.nft_owners@, nft_key(), i as int);
                    assert forall|j: int|
                        0 <= j < self.nft_owners@.remove(i as int).len() implies (
                    #[trigger] self.nft_owners@.remove(i as int)[j]).nonce
                        < self.next_nft_nonce by {}
                }
                self.nft_owners.remove(i);
                Ok(())
            },
            None => Err(RegistryError::NotFound),
        }
    }

    /// Phase one of registration or renewal: validates the name, requires it
    /// to split into exactly two labels, requires the caller to be able to
    /// claim it, lazily clears an expired reservation of the name, and
    /// captures the request for completion once the exchange rate is known.
    /// Returns the correlation id of the captured request.
    pub fn register_or_renew(
        &mut self,
        caller: AccountId,
        payments: Vec<Payment>,
        now: u64,
        domain_name: Vec<u8>,
        period: u8,
        unit: crate::data::PeriodType,
        assign_to: Option<AccountId>,
    ) -> (r: Result<u64, RegistryError>)
        requires
            old(self).wf(),
            old(self).next_request_id < u64::MAX,
        ensures
            final(self).wf(),
            match spec_validate(domain_name@, views_of(old(self).allowed_top_level_domains@)) {
                Err(f) => r == Err::<u64, RegistryError>(RegistryError::InvalidName(f))
                    && *final(self) == *old(self),
                Ok(_) => if spec_split(domain_name@).len() != 2 {
                    r == Err::<u64, RegistryError>(
                        RegistryError::InvalidName(NameFault::NotRegistrable),
                    ) && *final(self) == *old(self)
                } else if !old(self).spec_can_claim(caller, domain_name@, now) {
                    r == Err::<u64, RegistryError>(RegistryError::NameNotAvailable) && *final(self)
                        == *old(self)
                } else {
                    &&& r == Ok::<u64, RegistryError>(old(self).next_request_id)
                    &&& final(self).next_request_id == old(self).next_request_id + 1
                    &&& final(self).spec_pending(old(self).next_request_id) == Some(
                        PendingRequest::Register {
                            caller,
                            payments,
                            domain_name,
                            secs: (period * spec_unit_seconds(unit)) as u64,
                            assign_to,
                        },
                    )
                    &&& forall|j: u64|
                        j != old(self).next_request_id ==> final(self).spec_pending(j)
                            == old(self).spec_pending(j)
                    &&& match old(self).spec_reservation(domain_name@) {
                        Some(res) => if now > res.until {
                            final(self).spec_reservation(domain_name@) == None::<Reservation> && (
                            forall|n: Seq<u8>|
                                n != domain_name@ ==> final(self).spec_reservation(n)
                                    == old(self).spec_reservation(n))
                        } else {
                            final(self).reservations == old(self).reservations
                        },
                        None => final(self).reservations == old(self).reservations,
                    }
                    &&& *final(self) == (Registry {
                        reservations: final(self).reservations,
                        pending: final(self).pending,
                        next_request_id: final(self).next_request_id,
                        ..*old(self)
                    })
                },
            },
    {
        if let Err(f) = validate_name(&domain_name, &self.allowed_top_level_domains) {
            return Err(RegistryError::InvalidName(f));
        }
        let parts = split_domain_name(&domain_name);
        if parts.len() != 2 {
            return Err(RegistryError::InvalidName(NameFault::NotRegistrable));
        }
        if !self.can_claim(caller, &domain_name, now) {
            return Err(RegistryError::NameNotAvailable);
        }
        if let Some(i) = self.find_reservation(&domain_name) {
            if now > self.reservations[i].until {
                proof {
                    lemma_assoc_remove(self.reservations@, reservation_key(), i as int);
                }
                self.reservations.remove(i);
            }
        }
        let secs = period_seconds(period, unit);
        let id = self.next_request_id;
        let entry = PendingEntry {
            id,
            req: PendingRequest::Register { caller, payments, domain_name, secs, assign_to },
        };
        proof {
            assert forall|j: int|
                0 <= j < self.pending@.len() implies pending_key()(
                #[trigger] self.pending@[j],
            ) != id by {}
            assert(!assoc_has(self.pending@, pending_key(), id));
            lemma_assoc_push(self.pending@, pending_key(), entry);
        }
        self.pending.push(entry);
        self.next_request_id = id + 1;
        Ok(id)
    }

    /// Phase two of registration or renewal. Takes the outcome of the
    /// exchange-rate round trip for the captured request `id`. A failed or
    /// zero-rate outcome fails the registration cleanly and leaves every
    /// store and the cached rate untouched. With a valid rate the cache is
    /// refreshed; then, if the tendered native amount covers the rent, an
    /// existing record still in its active or grace window is extended from
    /// its previous expiry, and otherwise a fresh record and certificate are
    /// created expiring `secs` after `now`; the excess is settled back.
    pub fn register_or_renew_callback(&mut self, id: u64, rate_result: Option<u64>, now: u64) -> (r:
        Result<Settlement, RegistryError>)
        requires
            old(self).wf(),
            old(self).next_nft_nonce < u64::MAX,
        ensures
            final(self).wf(),
            match old(self).spec_pending(id) {
                Some(PendingRequest::Register { caller, payments, domain_name, secs, assign_to }) => {
                    &&& pending_consumed(*old(self), *final(self), id)
                    &&& register_frame(*old(self), *final(self))
                    &&& match rate_result {
                        Some(rate) => if rate > 0 {
                            &&& final(self).egld_usd_price == Some(rate)
                            &&& ({
                                let lbl = spec_split(domain_name@)[0].len();
                                let fits = rent_price_fits(old(self).rental_fee, lbl, secs, rate);
                                let price = spec_rent_price(old(self).rental_fee, lbl, secs, rate);
                                let tendered = spec_tendered(payments@);
                                if !fits {
                                    r == Err::<Settlement, RegistryError>(RegistryError::Overflow)
                                        && registration_stores_unchanged(*old(self), *final(self))
                                } else if tendered < price {
                                    r == Err::<Settlement, RegistryError>(
                                        RegistryError::InsufficientFunds,
                                    ) && registration_stores_unchanged(*old(self), *final(self))
                                } else {
                                    match old(self).spec_domain(domain_name@) {
                                        Some(rec) => if now < rec.expires_at + GRACE_PERIOD {
                                            if rec.expires_at + secs > u64::MAX {
                                                r == Err::<Settlement, RegistryError>(
                                                    RegistryError::Overflow,
                                                ) && registration_stores_unchanged(
                                                    *old(self),
                                                    *final(self),
                                                )
                                            } else {
                                                &&& settlement_ok(
                                                    r,
                                                    caller,
                                                    tendered - price,
                                                    payments@,
                                                )
                                                &&& renewal_effect(
                                                    *old(self),
                                                    *final(self),
                                                    domain_name@,
                                                    rec,
                                                    (rec.expires_at + secs) as u64,
                                                )
                                            }
                                        } else {
                                            fresh_outcome(
                                                *old(self),
                                                *final(self),
                                                r,
                                                caller,
                                                payments@,
                                                domain_name@,
                                                secs,
                                                assign_to,
                                                now,
                                                tendered - price,
                                            )
                                        },
                                        None => fresh_outcome(
                                            *old(self),
                                            *final(self),
                                            r,
                                            caller,
                                            payments@,
                                            domain_name@,
                                            secs,
                                            assign_to,
                                            now,
                                            tendered - price,
                                        ),
                                    }
                                }
                            })
                        } else {
                            r == Err::<Settlement, RegistryError>(RegistryError::ExternalCallFailed)
                                && final(self).egld_usd_price == old(self).egld_usd_price
                                && registration_stores_unchanged(*old(self), *final(self))
                        },
                        None => r == Err::<Settlement, RegistryError>(
                            RegistryError::ExternalCallFailed,
                        ) && final(self).egld_usd_price == old(self).egld_usd_price
                            && registration_stores_unchanged(*old(self), *final(self)),
                    }
                },
                _ => r == Err::<Settlement, RegistryError>(RegistryError::NotFound) && *final(self)
                    == *old(self),
            },
    {
        let idx = match self.find_pending(id) {
            Some(i) => i,
            None => {
                return Err(RegistryError::NotFound);
            },
        };
        if !matches!(self.pending[idx].req, PendingRequest::Register { .. }) {
            return Err(RegistryError::NotFound);
        }
        proof {
            lemma_assoc_remove(self.pending@, pending_key(), idx as int);
            assert forall|j: int|
                0 <= j < self.pending@.remove(idx as int).len() implies (
            #[trigger] self.pending@.remove(idx as int)[j]).id < self.next_request_id by {}
        }
        let entry = self.pending.remove(idx);
        let (caller, payments, domain_name, secs, assign_to) = match entry.req {
            PendingRequest::Register { caller, payments, domain_name, secs, assign_to } => (
                caller,
                payments,
                domain_name,
                secs,
                assign_to,
            ),
            PendingRequest::SubDomainReg { .. } => {
                return Err(RegistryError::NotFound);
            },
        };
        let rate = match rate_result {
            Some(rate) => rate,
            None => {
                return Err(RegistryError::ExternalCallFailed);
            },
        };
        if rate == 0 {
            return Err(RegistryError::ExternalCallFailed);
        }
        self.egld_usd_price = Some(rate);
        let parts = split_domain_name(&domain_name);
        let label_len = parts[0].len();
        proof {
            assert(views_of(parts@)[0] == spec_split(domain_name@)[0]);
        }
        let price = match rent_price(&self.rental_fee, label_len, secs, rate) {
            Ok(p) => p,
            Err(e) => {
                return Err(e);
            },
        };
        let tendered = first_native_amount(&payments);
        if tendered < price {
            return Err(RegistryError::InsufficientFunds);
        }
        let existing = self.find_domain(&domain_name);
        if let Some(i) = existing {
            let expires = self.domains[i].expires_at;
            if (now as u128) < (expires as u128) + (GRACE_PERIOD as u128) {
                // renewal: extend from the previous expiry, not from now
                let new_expires = match expires.checked_add(secs) {
                    Some(v) => v,
                    None => {
                        return Err(RegistryError::Overflow);
                    },
                };
                proof {
                    lemma_assoc_remove(self.domains@, domain_key(), i as int);
                }
                let mut rec = self.domains.remove(i);
                rec.expires_at = new_expires;
                proof {
                    lemma_assoc_push(self.domains@, domain_key(), rec);
                }
                self.domains.push(rec);
                let excess = settle_excess(price, tendered);
                let returned = refund_with_detail(&payments);
                return Ok(Settlement { recipient: caller, excess, returned });
            }
            // reclaimable: fall through to a fresh claim that replaces the
            // record and reassigns ownership
            if self.domain_nft_token.is_none() {
                return Err(RegistryError::ExternalCallFailed);
            }
            let new_expires = match now.checked_add(secs) {
                Some(v) => v,
                None => {
                    return Err(RegistryError::Overflow);
                },
            };
            let recipient = match assign_to {
                Some(a) => a,
                None => caller,
            };
            let nonce = self.next_nft_nonce;
            let nft_entry = NftEntry { nonce, owner: recipient };
            proof {
                assert forall|j: int|
                    0 <= j < self.nft_owners@.len() implies nft_key()(
                    #[trigger] self.nft_owners@[j],
                ) != nonce by {}
                assert(!assoc_has(self.nft_owners@, nft_key(), nonce));
                lemma_assoc_push(self.nft_owners@, nft_key(), nft_entry);
            }
            self.nft_owners.push(nft_entry);
            self.next_nft_nonce = nonce + 1;
            let record = DomainName {
                name: domain_name,
                expires_at: new_expires,
                nft_nonce: nonce,
                profile: None,
                social_media: None,
                text_record: None,
                wallets: None,
            };
            proof {
                lemma_assoc_remove(self.domains@, domain_key(), i as int);
            }
            self.domains.remove(i);
            proof {
                lemma_assoc_push(self.domains@, domain_key(), record);
            }
            self.domains.push(record);
            let excess = settle_excess(price, tendered);
            let returned = refund_with_detail(&payments);
            return Ok(Settlement { recipient: caller, excess, returned });
        }
        // unregistered: a fresh claim
        if self.domain_nft_token.is_none() {
            return Err(RegistryError::ExternalCallFailed);
        }
        let new_expires = match now.checked_add(secs) {
            Some(v) => v,
            None => {
                return Err(RegistryError::Overflow);
            },
        };
        let recipient = match assign_to {
            Some(a) => a,
            None => caller,
        };
        let nonce = self.next_nft_nonce;
        let nft_entry = NftEntry { nonce, owner: recipient };
        proof {
            assert forall|j: int|
                0 <= j < self.nft_owners@.len() implies nft_key()(
                #[trigger] self.nft_owners@[j],
            ) != nonce by {}
            assert(!assoc_has(self.nft_owners@, nft_key(), nonce));
            lemma_assoc_push(self.nft_owners@, nft_key(), nft_entry);
        }
        self.nft_owners.push(nft_entry);
        self.next_nft_nonce = nonce + 1;
        let record = DomainName {
            name: domain_name,
            expires_at: new_expires,
            nft_nonce: nonce,
            profile: None,
            social_media: None,
            text_record: None,
            wallets: None,
        };
        proof {
            assert(!assoc_has(self.domains@, domain_key(), record.name@));
            lemma_assoc_push(self.domains@, domain_key(), record);
        }
        self.domains.push(record);
        let excess = settle_excess(price, tendered);
        let returned = refund_with_detail(&payments);
        Ok(Settlement { recipient: caller, excess, returned })
    }
}

impl Registry {
    /// Phase one of subdomain registration: the caller must own the primary
    /// domain of `sub_domain`, which must not already exist; the request is
    /// captured for completion once the exchange rate is known.
    pub fn register_sub_domain(
        &mut self,
        caller: AccountId,
        payments: Vec<Payment>,
        sub_domain: Vec<u8>,
        address: AccountId,
    ) -> (r: Result<u64, RegistryError>)
        requires
            old(self).wf(),
            old(self).next_request_id < u64::MAX,
        ensures
            final(self).wf(),
            if !old(self).spec_is_owner(caller, sub_domain@) {
                r == Err::<u64, RegistryError>(RegistryError::NotAllowed) && *final(self) == *old(self)
            } else if old(self).spec_sub_domain(sub_domain@) is Some {
                r == Err::<u64, RegistryError>(RegistryError::AlreadyExists) && *final(self)
                    == *old(self)
            } else {
                &&& r == Ok::<u64, RegistryError>(old(self).next_request_id)
                &&& final(self).next_request_id == old(self).next_request_id + 1
                &&& final(self).spec_pending(old(self).next_request_id) == Some(
                    PendingRequest::SubDomainReg { caller, payments, sub_domain, address },
                )
                &&& forall|j: u64|
                    j != old(self).next_request_id ==> final(self).spec_pending(j)
                        == old(self).spec_pending(j)
                &&& *final(self) == (Registry {
                    pending: final(self).pending,
                    next_request_id: final(self).next_request_id,
                    ..*old(self)
                })
            },
    {
        if !self.is_owner(caller, &sub_domain) {
            return Err(RegistryError::NotAllowed);
        }
        if self.find_sub_domain(&sub_domain).is_some() {
            return Err(RegistryError::AlreadyExists);
        }
        let id = self.next_request_id;
        let entry = PendingEntry {
            id,
            req: PendingRequest::SubDomainReg { caller, payments, sub_domain, address },
        };
        proof {
            assert forall|j: int|
                0 <= j < self.pending@.len() implies pending_key()(
                #[trigger] self.pending@[j],
            ) != id by {}
            assert(!assoc_has(self.pending@, pending_key(), id));
            lemma_assoc_push(self.pending@, pending_key(), entry);
        }
        self.pending.push(entry);
        self.next_request_id = id + 1;
        Ok(id)
    }

    /// Phase two of subdomain registration: with a valid rate the cache is
    /// refreshed and, if the tendered native amount covers the flat
    /// subdomain fee converted through the rate, the subdomain is bound to
    /// its resolution address and the excess settled back; a failed or
    /// zero-rate outcome fails cleanly with nothing changed.
    pub fn register_subdomain_callback(&mut self, id: u64, rate_result: Option<u64>) -> (r: Result<
        Settlement,
        RegistryError,
    >)
        requires
            old(self).wf(),
        ensures
            final(self).wf(),
            match old(self).spec_pending(id) {
                Some(PendingRequest::SubDomainReg { caller, payments, sub_domain, address }) => {
                    &&& pending_consumed(*old(self), *final(self), id)
                    &&& subdomain_frame(*old(self), *final(self))
                    &&& match rate_result {
                        Some(rate) => if rate > 0 {
                            &&& final(self).egld_usd_price == Some(rate)
                            &&& ({
                                let price = SUB_DOMAIN_COST_USD as int / rate as int;
                                let tendered = spec_tendered(payments@);
                                if tendered < price {
                                    r == Err::<Settlement, RegistryError>(
                                        RegistryError::InsufficientFunds,
                                    ) && final(self).sub_domains == old(self).sub_domains
                                } else {
                                    &&& settlement_ok(r, caller, tendered - price, payments@)
                                    &&& match final(self).spec_sub_domain(sub_domain@) {
                                        Some(e) => e.name@ == sub_domain@ && e.address == address,
                                        None => false,
                                    }
                                    &&& forall|n: Seq<u8>|
                                        n != sub_domain@ ==> final(self).spec_sub_domain(n)
                                            == old(self).spec_sub_domain(n)
                                }
                            })
                        } else {
                            r == Err::<Settlement, RegistryError>(RegistryError::ExternalCallFailed)
                                && final(self).egld_usd_price == old(self).egld_usd_price && final(self).sub_domains == old(self).sub_domains
                        },
                        None => r == Err::<Settlement, RegistryError>(
                            RegistryError::ExternalCallFailed,
                        ) && final(self).egld_usd_price == old(self).egld_usd_price && final(self).sub_domains == old(self).sub_domains,
                    }
                },
                _ => r == Err::<Settlement, RegistryError>(RegistryError::NotFound) && *final(self)
                    == *old(self),
            },
    {
        let idx = match self.find_pending(id) {
            Some(i) => i,
            None => {
                return Err(RegistryError::NotFound);
            },
        };
        if !matches!(self.pending[idx].req, PendingRequest::SubDomainReg { .. }) {
            return Err(RegistryError::NotFound);
        }
        proof {
            lemma_assoc_remove(self.pending@, pending_key(), idx as int);
            assert forall|j: int|
                0 <= j < self.pending@.remove(idx as int).len() implies (
            #[trigger] self.pending@.remove(idx as int)[j]).id < self.next_request_id by {}
        }
        let entry = self.pending.remove(idx);
        let (caller, payments, sub_domain, address) = match entry.req {
            PendingRequest::SubDomainReg { caller, payments, sub_domain, address } => (
                caller,
                payments,
                sub_domain,
                address,
            ),
            PendingRequest::Register { .. } => {
                return Err(RegistryError::NotFound);
            },
        };
        let rate = match rate_result {
            Some(rate) => rate,
            None => {
                return Err(RegistryError::ExternalCallFailed);
            },
        };
        if rate == 0 {
            return Err(RegistryError::ExternalCallFailed);
        }
        self.egld_usd_price = Some(rate);
        let price: u128 = (SUB_DOMAIN_COST_USD as u128) / (rate as u128);
        let tendered = first_native_amount(&payments);
        if tendered < price {
            return Err(RegistryError::InsufficientFunds);
        }
        let new_entry = SubDomain { name: sub_domain, address };
        match self.find_sub_domain(&new_entry.name) {
            Some(i) => {
                proof {
                    lemma_assoc_update(self.sub_domains@, sub_domain_key(), i as int, new_entry);
                }
                self.sub_domains.set(i, new_entry);
            },
            None => {
                proof {
                    lemma_assoc_push(self.sub_domains@, sub_domain_key(), new_entry);
                }
                self.sub_domains.push(new_entry);
            },
        }
        let excess = settle_excess(price, tendered);
        let returned = refund_with_detail(&payments);
        Ok(Settlement { recipient: caller, excess, returned })
    }

    /// Removes a subdomain. The caller must own the primary domain, and the
    /// exact name and address pair must exist.
    pub fn remove_sub_domain(
        &mut self,
        caller: AccountId,
        sub_domain_name: &Vec<u8>,
        address: AccountId,
    ) -> (r: Result<(), RegistryError>)
        requires
            old(self).wf(),
        ensures
            final(self).wf(),
            if !old(self).spec_is_owner(caller, sub_domain_name@) {
                r == Err::<(), RegistryError>(RegistryError::NotAllowed) && *final(self) == *old(self)
            } else {
                match old(self).spec_sub_domain(sub_domain_name@) {
                    Some(e) => if e.address == address {
                        &&& r == Ok::<(), RegistryError>(())
                        &&& final(self).spec_sub_domain(sub_domain_name@) == None::<SubDomain>
                        &&& forall|n: Seq<u8>|
                            n != sub_domain_name@ ==> final(self).spec_sub_domain(n)
                                == old(self).spec_sub_domain(n)
                        &&& *final(self) == (Registry {
                            sub_domains: final(self).sub_domains,
                            ..*old(self)
                        })
                    } else {
                        r == Err::<(), RegistryError>(RegistryError::NotFound) && *final(self)
                            == *old(self)
                    },
                    None => r == Err::<(), RegistryError>(RegistryError::NotFound) && *final(self)
                        == *old(self),
                }
            },
    {
        if !self.is_owner(caller, sub_domain_name) {
            return Err(RegistryError::NotAllowed);
        }
        match self.find_sub_domain(sub_domain_name) {
            Some(i) => {
                if self.sub_domains[i].address != address {
                    return Err(RegistryError::NotFound);
                }
                proof {
                    lemma_assoc_remove(self.sub_domains@, sub_domain_key(), i as int);
                }
                self.sub_domains.remove(i);
                Ok(())
            },
            None => Err(RegistryError::NotFound),
        }
    }

    /// Migrates a reserved legacy name into the current scheme: the
    /// reservation must exist, be held by the caller, and the call must come
    /// before the migration deadline. The legacy name is rehomed under the
    /// canonical top-level label at zero price, inheriting the reservation's
    /// deadline as expiry, and the reservation is consumed.
    pub fn migrate_domain(&mut self, caller: AccountId, now: u64, domain_name: &Vec<u8>) -> (r:
        Result<(), RegistryError>)
        requires
            old(self).wf(),
            old(self).next_nft_nonce < u64::MAX,
        ensures
            final(self).wf(),
            r == spec_migrate_result(*old(self), caller, now, domain_name@),
            match old(self).spec_reservation(domain_name@) {
                None => r == Err::<(), RegistryError>(RegistryError::NotFound) && *final(self)
                    == *old(self),
                Some(res) => if res.reserved_for != caller {
                    r == Err::<(), RegistryError>(RegistryError::NotAllowed) && *final(self)
                        == *old(self)
                } else if now >= old(self).migration_start_time + MIGRATION_PERIOD {
                    r == Err::<(), RegistryError>(RegistryError::DeadlineExceeded) && *final(self)
                        == *old(self)
                } else if spec_split(domain_name@).len() != 2 {
                    r == Err::<(), RegistryError>(
                        RegistryError::InvalidName(NameFault::NotRegistrable),
                    ) && *final(self) == *old(self)
                } else {
                    let new_name = spec_split(domain_name@)[0] + seq![SEPARATOR]
                        + canonical_tld();
                    if old(self).spec_domain(new_name) is Some {
                        r == Err::<(), RegistryError>(RegistryError::AlreadyRegistered) && *final(self) == *old(self)
                    } else if old(self).domain_nft_token is None {
                        r == Err::<(), RegistryError>(RegistryError::ExternalCallFailed) && *final(self) == *old(self)
                    } else {
                        &&& r == Ok::<(), RegistryError>(())
                        &&& fresh_claim_effect(*old(self), *final(self), new_name, res.until, caller)
                        &&& final(self).spec_reservation(domain_name@) == None::<Reservation>
                        &&& forall|n: Seq<u8>|
                            n != domain_name@ ==> final(self).spec_reservation(n)
                                == old(self).spec_reservation(n)
                        &&& *final(self) == (Registry {
                            domains: final(self).domains,
                            nft_owners: final(self).nft_owners,
                            next_nft_nonce: final(self).next_nft_nonce,
                            reservations: final(self).reservations,
                            ..*old(self)
                        })
                    }
                },
            },
    {
        let res_idx = match self.find_reservation(domain_name) {
            Some(i) => i,
            None => {
                return Err(RegistryError::NotFound);
            },
        };
        let res_for = self.reservations[res_idx].reserved_for;
        let res_until = self.reservations[res_idx].until;
        if res_for != caller {
            return Err(RegistryError::NotAllowed);
        }
        if (now as u128) >= (self.migration_start_time as u128) + (MIGRATION_PERIOD as u128) {
            return Err(RegistryError::DeadlineExceeded);
        }
        let parts = split_domain_name(domain_name);
        if parts.len() != 2 {
            return Err(RegistryError::InvalidName(NameFault::NotRegistrable));
        }
        let mut new_name: Vec<u8> = Vec::new();
        append_bytes(&mut new_name, &parts[0]);
        new_name.push(SEPARATOR);
        let tld = canonical_tld_bytes();
        append_bytes(&mut new_name, &tld);
        proof {
            assert(views_of(parts@)[0] == spec_split(domain_name@)[0]);
            assert(new_name@ =~= spec_split(domain_name@)[0] + seq![SEPARATOR] + canonical_tld());
        }
        if self.find_domain(&new_name).is_some() {
            return Err(RegistryError::AlreadyRegistered);
        }
        if self.domain_nft_token.is_none() {
            return Err(RegistryError::ExternalCallFailed);
        }
        let nonce = self.next_nft_nonce;
        let nft_entry = NftEntry { nonce, owner: caller };
        proof {
            assert forall|j: int|
                0 <= j < self.nft_owners@.len() implies nft_key()(
                #[trigger] self.nft_owners@[j],
            ) != nonce by {}
            assert(!assoc_has(self.nft_owners@, nft_key(), nonce));
            lemma_assoc_push(self.nft_owners@, nft_key(), nft_entry);
        }
        self.nft_owners.push(nft_entry);
        self.next_nft_nonce = nonce + 1;
        let record = DomainName {
            name: new_name,
            expires_at: res_until,
            nft_nonce: nonce,
            profile: None,
            social_media: None,
            text_record: None,
            wallets: None,
        };
        proof {
            assert(!assoc_has(self.domains@, domain_key(), record.name@));
            lemma_assoc_push(self.domains@, domain_key(), record);
        }
        self.domains.push(record);
        proof {
            lemma_assoc_remove(self.reservations@, reservation_key(), res_idx as int);
        }
        self.reservations.remove(res_idx);
        Ok(())
    }

    /// Reassigns the ownership certificate of `domain_name` to `new_owner`.
    /// Only the current certificate holder may transfer, self-transfer is
    /// rejected, and the subdomains under the name are cleared.
    pub fn transfer_domain(&mut self, caller: AccountId, domain_name: &Vec<u8>, new_owner: AccountId)
        -> (r: Result<(), RegistryError>)
        requires
            old(self).wf(),
        ensures
            final(self).wf(),
            match old(self).spec_domain(domain_name@) {
                None => r == Err::<(), RegistryError>(RegistryError::NotFound) && *final(self)
                    == *old(self),
                Some(rec) => if old(self).spec_nft_owner(rec.nft_nonce) != Some(caller) {
                    r == Err::<(), RegistryError>(RegistryError::NotAllowed) && *final(self)
                        == *old(self)
                } else if new_owner == caller {
                    r == Err::<(), RegistryError>(RegistryError::NotAllowed) && *final(self)
                        == *old(self)
                } else {
                    &&& r == Ok::<(), RegistryError>(())
                    &&& final(self).spec_nft_owner(rec.nft_nonce) == Some(new_owner)
                    &&& forall|m: u64|
                        m != rec.nft_nonce ==> final(self).spec_nft_owner(m)
                            == old(self).spec_nft_owner(m)
                    &&& forall|n: Seq<u8>|
                        final(self).spec_sub_domain(n) == (match old(self).spec_sub_domain(n) {
                            Some(e) => if sub_under_primary(e, domain_name@) {
                                None::<SubDomain>
                            } else {
                                Some(e)
                            },
                            None => None::<SubDomain>,
                        })
                    &&& *final(self) == (Registry {
                        nft_owners: final(self).nft_owners,
                        sub_domains: final(self).sub_domains,
                        ..*old(self)
                    })
                },
            },
    {
        let i = match self.find_domain(domain_name) {
            Some(i) => i,
            None => {
                return Err(RegistryError::NotFound);
            },
        };
        let nonce = self.domains[i].nft_nonce;
        let j = match self.find_nft(nonce) {
            Some(j) => j,
            None => {
                return Err(RegistryError::NotAllowed);
            },
        };
        if self.nft_owners[j].owner != caller {
            return Err(RegistryError::NotAllowed);
        }
        if new_owner == caller {
            return Err(RegistryError::NotAllowed);
        }
        let new_entry = NftEntry { nonce, owner: new_owner };
        proof {
            lemma_assoc_update(self.nft_owners@, nft_key(), j as int, new_entry);
            assert forall|k: int|
                0 <= k < self.nft_owners@.update(j as int, new_entry).len() implies (
            #[trigger] self.nft_owners@.update(j as int, new_entry)[k]).nonce
                < self.next_nft_nonce by {}
        }
        self.nft_owners.set(j, new_entry);
        let ghost orig = self.sub_domains@;
        let ghost snap = *self;
        let mut kept: Vec<SubDomain> = Vec::new();
        proof {
            assert(self.sub_domains@ =~= orig.skip(0));
            assert(kept@ =~= spec_subs_without(orig.take(0), domain_name@));
        }
        while self.sub_domains.len() > 0
            invariant
                *self == (Registry { sub_domains: self.sub_domains, ..snap }),
                self.sub_domains@.len() <= orig.len(),
                self.sub_domains@ == orig.skip(orig.len() - self.sub_domains@.len()),
                kept@ == spec_subs_without(
                    orig.take(orig.len() - self.sub_domains@.len()),
                    domain_name@,
                ),
            decreases self.sub_domains.len(),
        {
            let ghost p = orig.len() - self.sub_domains@.len();
            proof {
                assert(self.sub_domains@[0] == orig[p]);
                assert(self.sub_domains@.remove(0) =~= orig.skip(p + 1));
                assert(orig.take(p + 1).drop_last() =~= orig.take(p));
                assert(orig.take(p + 1).last() == orig[p]);
            }
            let e = self.sub_domains.remove(0);
            let matches_primary = match get_primary_domain(&e.name) {
                Some(p) => crate::name::bytes_eq(&p, domain_name),
                None => false,
            };
            if !matches_primary {
                kept.push(e);
            }
        }
        proof {
            assert(orig.take(orig.len() as int) =~= orig);
        }
        self.sub_domains = kept;
        proof {
            lemma_subs_without(orig, domain_name@);
        }
        Ok(())
    }
}

/// What `migrate_domain` returns for a caller, time and legacy name against
/// a given registry state: the reservation must exist and be held by the
/// caller, the migration window must still be open, the legacy name must
/// split into exactly two labels, the rehomed name must not be registered
/// yet, and the certificate token must be issued.
pub open spec fn spec_migrate_result(
    s: Registry,
    caller: AccountId,
    now: u64,
    name: Seq<u8>,
) -> Result<(), RegistryError> {
    match s.spec_reservation(name) {
        None => Err(RegistryError::NotFound),
        Some(res) => if res.reserved_for != caller {
            Err(RegistryError::NotAllowed)
        } else if now >= s.migration_start_time + MIGRATION_PERIOD {
            Err(RegistryError::DeadlineExceeded)
        } else if spec_split(name).len() != 2 {
            Err(RegistryError::InvalidName(NameFault::NotRegistrable))
        } else if s.spec_domain(spec_split(name)[0] + seq![SEPARATOR] + canonical_tld()) is Some {
            Err(RegistryError::AlreadyRegistered)
        } else if s.domain_nft_token is None {
            Err(RegistryError::ExternalCallFailed)
        } else {
            Ok(())
        },
    }
}

/// Only the pending table, the rate cache and the subdomain store may differ
/// between `a` and `b`.
pub open spec fn subdomain_frame(a: Registry, b: Registry) -> bool {
    b == (Registry {
        pending: b.pending,
        egld_usd_price: b.egld_usd_price,
        sub_domains: b.sub_domains,
        ..a
    })
}

/// The subdomain entries of `s` that do not hang under the primary domain
/// `name`, in order.
pub open spec fn spec_subs_without(s: Seq<SubDomain>, name: Seq<u8>) -> Seq<SubDomain>
    decreases s.len(),
{
    if s.len() == 0 {
        Seq::empty()
    } else {
        let rest = spec_subs_without(s.drop_last(), name);
        if sub_under_primary(s.last(), name) {
            rest
        } else {
            rest.push(s.last())
        }
    }
}

/// Filtering the subdomains under a primary out of a uniquely keyed store
/// unbinds exactly those names.
pub proof fn lemma_subs_without(s: Seq<SubDomain>, name: Seq<u8>)
    requires
        unique_keys(s, sub_domain_key()),
    ensures
        unique_keys(spec_subs_without(s, name), sub_domain_key()),
        forall|m: Seq<u8>|
            #![trigger assoc_get(spec_subs_without(s, name), sub_domain_key(), m)]
            assoc_get(spec_subs_without(s, name), sub_domain_key(), m) == (match assoc_get(
                s,
                sub_domain_key(),
                m,
            ) {
                Some(e) => if sub_under_primary(e, name) {
                    None::<SubDomain>
                } else {
                    Some(e)
                },
                None => None::<SubDomain>,
            }),
    decreases s.len(),
{
    if s.len() == 0 {
        assert forall|m: Seq<u8>|
            #![trigger assoc_get(spec_subs_without(s, name), sub_domain_key(), m)]
            assoc_get(spec_subs_without(s, name), sub_domain_key(), m) == (match assoc_get(
            s,
            sub_domain_key(),
            m,
        ) {
            Some(e) => if sub_under_primary(e, name) {
                None::<SubDomain>
            } else {
                Some(e)
            },
            None => None::<SubDomain>,
        }) by {
            assert(!assoc_has(spec_subs_without(s, name), sub_domain_key(), m));
            assert(!assoc_has(s, sub_domain_key(), m));
        }
    } else {
        let s0 = s.drop_last();
        let v = s.last();
        let kf = sub_domain_key();
        assert forall|i: int, j: int|
            #![trigger kf(s0[i]), kf(s0[j])]
            0 <= i < j < s0.len() implies kf(s0[i]) != kf(s0[j]) by {
            assert(s0[i] == s[i]);
            assert(s0[j] == s[j]);
        }
        lemma_subs_without(s0, name);
        assert forall|j: int| 0 <= j < s0.len() implies kf(#[trigger] s0[j]) != kf(v) by {
            assert(s0[j] == s[j]);
            assert(kf(s[j]) != kf(s[s.len() - 1]));
        }
        assert(!assoc_has(s0, kf, kf(v)));
        lemma_assoc_push(s0, kf, v);
        assert(s0.push(v) =~= s);
        let f0 = spec_subs_without(s0, name);
        if sub_under_primary(v, name) {
            assert(spec_subs_without(s, name) == f0);
            assert forall|m: Seq<u8>|
                #![trigger assoc_get(spec_subs_without(s, name), sub_domain_key(), m)]
                assoc_get(spec_subs_without(s, name), sub_domain_key(), m) == (match assoc_get(
                s,
                sub_domain_key(),
                m,
            ) {
                Some(e) => if sub_under_primary(e, name) {
                    None::<SubDomain>
                } else {
                    Some(e)
                },
                None => None::<SubDomain>,
            }) by {
                if m == kf(v) {
                    assert(assoc_get(s, kf, m) == Some(v));
                    assert(assoc_get(f0, kf, m) == assoc_get(s0, kf, m));
                    assert(!assoc_has(s0, kf, m));
                } else {
                    assert(assoc_get(s, kf, m) == assoc_get(s0, kf, m));
                }
            }
        } else {
            assert(spec_subs_without(s, name) == f0.push(v));
            assert(assoc_get(f0, kf, kf(v)) == (match assoc_get(s0, kf, kf(v)) {
                Some(e) => if sub_under_primary(e, name) {
                    None::<SubDomain>
                } else {
                    Some(e)
                },
                None => None::<SubDomain>,
            }));
            assert(!assoc_has(s0, kf, kf(v)));
            assert(assoc_get(f0, kf, kf(v)) == None::<SubDomain>);
            assert(!assoc_has(f0, kf, kf(v)));
            lemma_assoc_push(f0, kf, v);
            assert forall|m: Seq<u8>|
                #![trigger assoc_get(spec_subs_without(s, name), sub_domain_key(), m)]
                assoc_get(spec_subs_without(s, name), sub_domain_key(), m) == (match assoc_get(
                s,
                sub_domain_key(),
                m,
            ) {
                Some(e) => if sub_under_primary(e, name) {
                    None::<SubDomain>
                } else {
                    Some(e)
                },
                None => None::<SubDomain>,
            }) by {
                if m == kf(v) {
                    assert(assoc_get(s, kf, m) == Some(v));
                    assert(assoc_get(f0.push(v), kf, m) == Some(v));
                } else {
                    assert(assoc_get(s, kf, m) == assoc_get(s0, kf, m));
                    assert(assoc_get(f0.push(v), kf, m) == assoc_get(f0, kf, m));
                }
            }
        }
    }
}

/// The outcome of a fresh claim attempt in the registration callback: it
/// fails when no certificate token is issued or the expiry overflows, and
/// otherwise creates the record and certificate and settles the excess.
pub open spec fn fresh_outcome(
    a: Registry,
    b: Registry,
    r: Result<Settlement, RegistryError>,
    caller: AccountId,
    payments: Seq<Payment>,
    name: Seq<u8>,
    secs: u64,
    assign_to: Option<AccountId>,
    now: u64,
    excess: int,
) -> bool {
    if a.domain_nft_token is None {
        r == Err::<Settlement, RegistryError>(RegistryError::ExternalCallFailed)
            && registration_stores_unchanged(a, b)
    } else if now + secs > u64::MAX {
        r == Err::<Settlement, RegistryError>(RegistryError::Overflow)
            && registration_stores_unchanged(a, b)
    } else {
        &&& settlement_ok(r, caller, excess, payments)
        &&& fresh_claim_effect(
            a,
            b,
            name,
            (now + secs) as u64,
            match assign_to {
                Some(to) => to,
                None => caller,
            },
        )
    }
}

} // verus!
