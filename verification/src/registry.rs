//! The registry state and its operations.
//!
//! One `Registry` value holds every persisted store: domain records keyed by
//! name, subdomains, reservations, the certificate ledger, the fee schedule,
//! the cached exchange rate, resolution bindings, scoped key/value records,
//! and the pending-request table of the two-phase exchange-rate flow.

use vstd::prelude::*;
use vstd::pervasive::VecAdditionalExecFns;

use crate::assoc::{assoc_get, assoc_index, lemma_assoc_at, lemma_assoc_none, unique_keys};
use crate::constants::GRACE_PERIOD;
use crate::data::{
    AccountId, DomainName, DomainState, KeyValueEntry, NftEntry, PendingEntry, PendingRequest,
    RegistryError, RentalFee, Reservation, ResolutionEntry, SubDomain,
};
use crate::name::{bytes_eq, spec_primary, spec_split};

verus! {

/// The key of a domain record: the name it is registered under.
pub open spec fn domain_key() -> spec_fn(DomainName) -> Seq<u8> {
    |d: DomainName| d.name@
}

/// The key of a subdomain entry: the full subdomain name.
pub open spec fn sub_domain_key() -> spec_fn(SubDomain) -> Seq<u8> {
    |s: SubDomain| s.name@
}

/// The key of a reservation: the legacy name it reserves.
pub open spec fn reservation_key() -> spec_fn(Reservation) -> Seq<u8> {
    |r: Reservation| r.domain_name@
}

/// The key of a certificate ledger entry: the certificate nonce.
pub open spec fn nft_key() -> spec_fn(NftEntry) -> u64 {
    |e: NftEntry| e.nonce
}

/// The key of a pending request: its correlation id.
pub open spec fn pending_key() -> spec_fn(PendingEntry) -> u64 {
    |e: PendingEntry| e.id
}

/// The key of a resolution binding: the bound name.
pub open spec fn resolution_key() -> spec_fn(ResolutionEntry) -> Seq<u8> {
    |e: ResolutionEntry| e.name@
}

/// The key of a scoped record: the name together with the record key.
pub open spec fn key_value_key() -> spec_fn(KeyValueEntry) -> (Seq<u8>, Seq<u8>) {
    |e: KeyValueEntry| (e.name@, e.key@)
}

/// The authoritative registry state.
pub struct Registry {
    /// The administrator account; it deployed the registry.
    pub admin: AccountId,
    /// The account of the exchange-rate oracle collaborator.
    pub oracle_address: AccountId,
    /// One record per name that was ever successfully registered.
    pub domains: Vec<DomainName>,
    /// One entry per registered subdomain, keyed by the full subdomain name.
    pub sub_domains: Vec<SubDomain>,
    /// One reservation per reserved legacy name.
    pub reservations: Vec<Reservation>,
    /// The certificate ledger: which account holds which certificate.
    pub nft_owners: Vec<NftEntry>,
    /// The nonce the next minted certificate receives.
    pub next_nft_nonce: u64,
    /// The identifier of the issued certificate token, once issued.
    pub domain_nft_token: Option<Vec<u8>>,
    /// The per-length annual fee schedule in the stable unit of account.
    pub rental_fee: RentalFee,
    /// The cached native/stable exchange rate; absent until first refresh.
    pub egld_usd_price: Option<u64>,
    /// Royalties attached to minted certificates, in basis points.
    pub royalties: u64,
    /// When the legacy-name migration window opened.
    pub migration_start_time: u64,
    /// The append-only allow-list of top-level labels.
    pub allowed_top_level_domains: Vec<Vec<u8>>,
    /// The primary resolution address bindings, keyed by name.
    pub resolutions: Vec<ResolutionEntry>,
    /// Key/value records scoped to a name.
    pub key_values: Vec<KeyValueEntry>,
    /// Requests suspended on an exchange-rate round trip.
    pub pending: Vec<PendingEntry>,
    /// The correlation id the next pending request receives.
    pub next_request_id: u64,
}

impl Registry {
    /// Every store keyed uniquely, and every issued nonce and correlation id
    /// below its counter.
    pub open spec fn wf(self) -> bool {
        &&& unique_keys(self.domains@, domain_key())
        &&& unique_keys(self.sub_domains@, sub_domain_key())
        &&& unique_keys(self.reservations@, reservation_key())
        &&& unique_keys(self.nft_owners@, nft_key())
        &&& unique_keys(self.pending@, pending_key())
        &&& unique_keys(self.resolutions@, resolution_key())
        &&& unique_keys(self.key_values@, key_value_key())
        &&& forall|i: int|
            0 <= i < self.nft_owners@.len() ==> (#[trigger] self.nft_owners@[i]).nonce
                < self.next_nft_nonce
        &&& forall|i: int|
            0 <= i < self.pending@.len() ==> (#[trigger] self.pending@[i]).id
                < self.next_request_id
    }

    /// The record registered under `name`, if any.
    pub open spec fn spec_domain(self, name: Seq<u8>) -> Option<DomainName> {
        assoc_get(self.domains@, domain_key(), name)
    }

    /// The subdomain entry under `name`, if any.
    pub open spec fn spec_sub_domain(self, name: Seq<u8>) -> Option<SubDomain> {
        assoc_get(self.sub_domains@, sub_domain_key(), name)
    }

    /// The reservation of legacy `name`, if any.
    pub open spec fn spec_reservation(self, name: Seq<u8>) -> Option<Reservation> {
        assoc_get(self.reservations@, reservation_key(), name)
    }

    /// The holder of the certificate with nonce `nonce`, if it exists.
    pub open spec fn spec_nft_owner(self, nonce: u64) -> Option<AccountId> {
        match assoc_get(self.nft_owners@, nft_key(), nonce) {
            Some(e) => Some(e.owner),
            None => None,
        }
    }

    /// The suspended request with correlation id `id`, if any.
    pub open spec fn spec_pending(self, id: u64) -> Option<PendingRequest> {
        match assoc_get(self.pending@, pending_key(), id) {
            Some(e) => Some(e.req),
            None => None,
        }
    }

    /// The resolution address bound to `name`, if any.
    pub open spec fn spec_resolution(self, name: Seq<u8>) -> Option<AccountId> {
        match assoc_get(self.resolutions@, resolution_key(), name) {
            Some(e) => Some(e.address),
            None => None,
        }
    }

    /// The value of the record with `key` scoped to `name`, if any.
    pub open spec fn spec_key_value(self, name: Seq<u8>, key: Seq<u8>) -> Option<Seq<u8>> {
        match assoc_get(self.key_values@, key_value_key(), (name, key)) {
            Some(e) => Some(e.value@),
            None => None,
        }
    }

    /// Whether `caller` holds the ownership certificate of the primary
    /// domain of `name`. Ownership of the certificate is the sole authority
    /// for managing a name.
    pub open spec fn spec_is_owner(self, caller: AccountId, name: Seq<u8>) -> bool {
        &&& spec_split(name).len() >= 2
        &&& match self.spec_domain(spec_primary(name)) {
            Some(rec) => self.spec_nft_owner(rec.nft_nonce) == Some(caller),
            None => false,
        }
    }

    /// The lifecycle state of `name` at time `now`.
    pub open spec fn spec_state(self, name: Seq<u8>, now: u64) -> DomainState {
        match self.spec_domain(name) {
            None => DomainState::Unregistered,
            Some(rec) => if now < rec.expires_at {
                DomainState::Active
            } else if now < rec.expires_at + GRACE_PERIOD {
                DomainState::Grace
            } else {
                DomainState::Reclaimable
            },
        }
    }

    /// Whether `caller` holds a reservation of `name` whose deadline has not
    /// passed at `now`.
    pub open spec fn spec_has_valid_reservation(
        self,
        caller: AccountId,
        name: Seq<u8>,
        now: u64,
    ) -> bool {
        match self.spec_reservation(name) {
            Some(r) => r.reserved_for == caller && now <= r.until,
            None => false,
        }
    }

    /// Whether `caller` may claim `name` at `now`: the caller already owns
    /// the name's certificate, or holds a still-valid reservation of it, or
    /// the name is unregistered or reclaimable. A reservation whose deadline
    /// has passed is treated as absent.
    pub open spec fn spec_can_claim(self, caller: AccountId, name: Seq<u8>, now: u64) -> bool {
        ||| self.spec_is_owner(caller, name)
        ||| self.spec_has_valid_reservation(caller, name, now)
        ||| self.spec_state(name, now) == DomainState::Unregistered
        ||| self.spec_state(name, now) == DomainState::Reclaimable
    }

    /// Finds the index of the record registered under `name`.
    pub(crate) fn find_domain(&self, name: &Vec<u8>) -> (r: Option<usize>)
        requires
            unique_keys(self.domains@, domain_key()),
        ensures
            match r {
                Some(i) => i < self.domains@.len() && self.domains@[i as int].name@ == name@
                    && self.spec_domain(name@) == Some(self.domains@[i as int]) && assoc_index(
                    self.domains@,
                    domain_key(),
                    name@,
                ) == i,
                None => self.spec_domain(name@) == None::<DomainName>,
            },
    {
        let n = self.domains.len();
        let mut i: usize = 0;
        while i < n
            invariant
                unique_keys(self.domains@, domain_key()),
                n == self.domains@.len(),
                0 <= i <= n,
                forall|j: int| 0 <= j < i ==> domain_key()(#[trigger] self.domains@[j]) != name@,
            decreases n - i,
        {
            if bytes_eq(&self.domains[i].name, name) {
                proof {
                    lemma_assoc_at(self.domains@, domain_key(), i as int);
                }
                return Some(i);
            }
            i = i + 1;
        }
        proof {
            lemma_assoc_none(self.domains@, domain_key(), name@);
        }
        None
    }

    /// Finds the index of the subdomain entry under `name`.
    pub(crate) fn find_sub_domain(&self, name: &Vec<u8>) -> (r: Option<usize>)
        requires
            unique_keys(self.sub_domains@, sub_domain_key()),
        ensures
            match r {
                Some(i) => i < self.sub_domains@.len() && self.sub_domains@[i as int].name@
                    == name@ && self.spec_sub_domain(name@) == Some(self.sub_domains@[i as int])
                    && assoc_index(self.sub_domains@, sub_domain_key(), name@) == i,
                None => self.spec_sub_domain(name@) == None::<SubDomain>,
            },
    {
        let n = self.sub_domains.len();
        let mut i: usize = 0;
        while i < n
            invariant
                unique_keys(self.sub_domains@, sub_domain_key()),
                n == self.sub_domains@.len(),
                0 <= i <= n,
                forall|j: int|
                    0 <= j < i ==> sub_domain_key()(#[trigger] self.sub_domains@[j]) != name@,
            decreases n - i,
        {
            if bytes_eq(&self.sub_domains[i].name, name) {
                proof {
                    lemma_assoc_at(self.sub_domains@, sub_domain_key(), i as int);
                }
                return Some(i);
            }
            i = i + 1;
        }
        proof {
            lemma_assoc_none(self.sub_domains@, sub_domain_key(), name@);
        }
        None
    }

    /// Finds the index of the reservation of `name`.
    pub(crate) fn find_reservation(&self, name: &Vec<u8>) -> (r: Option<usize>)
        requires
            unique_keys(self.reservations@, reservation_key()),
        ensures
            match r {
                Some(i) => i < self.reservations@.len() && self.reservations@[i as int].domain_name@
                    == name@ && self.spec_reservation(name@) == Some(self.reservations@[i as int])
                    && assoc_index(self.reservations@, reservation_key(), name@) == i,
                None => self.spec_reservation(name@) == None::<Reservation>,
            },
    {
        let n = self.reservations.len();
        let mut i: usize = 0;
        while i < n
            invariant
                unique_keys(self.reservations@, reservation_key()),
                n == self.reservations@.len(),
                0 <= i <= n,
                forall|j: int|
                    0 <= j < i ==> reservation_key()(#[trigger] self.reservations@[j]) != name@,
            decreases n - i,
        {
            if bytes_eq(&self.reservations[i].domain_name, name) {
                proof {
                    lemma_assoc_at(self.reservations@, reservation_key(), i as int);
                }
                return Some(i);
            }
            i = i + 1;
        }
        proof {
            lemma_assoc_none(self.reservations@, reservation_key(), name@);
        }
        None
    }

    /// Finds the index of the ledger entry of certificate `nonce`.
    pub(crate) fn find_nft(&self, nonce: u64) -> (r: Option<usize>)
        requires
            unique_keys(self.nft_owners@, nft_key()),
        ensures
            match r {
                Some(i) => i < self.nft_owners@.len() && self.nft_owners@[i as int].nonce == nonce
                    && assoc_get(self.nft_owners@, nft_key(), nonce) == Some(
                    self.nft_owners@[i as int],
                ) && self.spec_nft_owner(nonce) == Some(self.nft_owners@[i as int].owner)
                    && assoc_index(self.nft_owners@, nft_key(), nonce) == i,
                None => self.spec_nft_owner(nonce) == None::<AccountId>,
            },
    {
        let n = self.nft_owners.len();
        let mut i: usize = 0;
        while i < n
            invariant
                unique_keys(self.nft_owners@, nft_key()),
                n == self.nft_owners@.len(),
                0 <= i <= n,
                forall|j: int| 0 <= j < i ==> nft_key()(#[trigger] self.nft_owners@[j]) != nonce,
            decreases n - i,
        {
            if self.nft_owners[i].nonce == nonce {
                proof {
                    lemma_assoc_at(self.nft_owners@, nft_key(), i as int);
                }
                return Some(i);
            }
            i = i + 1;
        }
        proof {
            lemma_assoc_none(self.nft_owners@, nft_key(), nonce);
        }
        None
    }

    /// Finds the index of the pending request with correlation id `id`.
    pub(crate) fn find_pending(&self, id: u64) -> (r: Option<usize>)
        requires
            unique_keys(self.pending@, pending_key()),
        ensures
            match r {
                Some(i) => i < self.pending@.len() && self.pending@[i as int].id == id
                    && assoc_get(self.pending@, pending_key(), id) == Some(self.pending@[i as int])
                    && self.spec_pending(id) == Some(self.pending@[i as int].req) && assoc_index(
                    self.pending@,
                    pending_key(),
                    id,
                ) == i,
                None => self.spec_pending(id) == None::<PendingRequest>,
            },
    {
        let n = self.pending.len();
        let mut i: usize = 0;
        while i < n
            invariant
                unique_keys(self.pending@, pending_key()),
                n == self.pending@.len(),
                0 <= i <= n,
                forall|j: int| 0 <= j < i ==> pending_key()(#[trigger] self.pending@[j]) != id,
            decreases n - i,
        {
            if self.pending[i].id == id {
                proof {
                    lemma_assoc_at(self.pending@, pending_key(), i as int);
                }
                return Some(i);
            }
            i = i + 1;
        }
        proof {
            lemma_assoc_none(self.pending@, pending_key(), id);
        }
        None
    }

    /// Finds the index of the resolution binding of `name`.
    pub(crate) fn find_resolution(&self, name: &Vec<u8>) -> (r: Option<usize>)
        requires
            unique_keys(self.resolutions@, resolution_key()),
        ensures
            match r {
                Some(i) => i < self.resolutions@.len() && self.resolutions@[i as int].name@
                    == name@ && assoc_get(self.resolutions@, resolution_key(), name@) == Some(
                    self.resolutions@[i as int],
                ) && self.spec_resolution(name@) == Some(self.resolutions@[i as int].address)
                    && assoc_index(self.resolutions@, resolution_key(), name@) == i,
                None => self.spec_resolution(name@) == None::<AccountId>,
            },
    {
        let n = self.resolutions.len();
        let mut i: usize = 0;
        while i < n
            invariant
                unique_keys(self.resolutions@, resolution_key()),
                n == self.resolutions@.len(),
                0 <= i <= n,
                forall|j: int|
                    0 <= j < i ==> resolution_key()(#[trigger] self.resolutions@[j]) != name@,
            decreases n - i,
        {
            if bytes_eq(&self.resolutions[i].name, name) {
                proof {
                    lemma_assoc_at(self.resolutions@, resolution_key(), i as int);
                }
                return Some(i);
            }
            i = i + 1;
        }
        proof {
            lemma_assoc_none(self.resolutions@, resolution_key(), name@);
        }
        None
    }

    /// Finds the index of the record with `key` scoped to `name`.
    pub(crate) fn find_key_value(&self, name: &Vec<u8>, key: &Vec<u8>) -> (r: Option<usize>)
        requires
            unique_keys(self.key_values@, key_value_key()),
        ensures
            match r {
                Some(i) => i < self.key_values@.len() && self.key_values@[i as int].name@ == name@
                    && self.key_values@[i as int].key@ == key@ && assoc_get(
                    self.key_values@,
                    key_value_key(),
                    (name@, key@),
                ) == Some(self.key_values@[i as int]) && self.spec_key_value(name@, key@) == Some(
                    self.key_values@[i as int].value@,
                ) && assoc_index(self.key_values@, key_value_key(), (name@, key@)) == i,
                None => self.spec_key_value(name@, key@) == None::<Seq<u8>>,
            },
    {
        let n = self.key_values.len();
        let mut i: usize = 0;
        while i < n
            invariant
                unique_keys(self.key_values@, key_value_key()),
                n == self.key_values@.len(),
                0 <= i <= n,
                forall|j: int|
                    0 <= j < i ==> key_value_key()(#[trigger] self.key_values@[j]) != (
                        name@,
                        key@,
                    ),
            decreases n - i,
        {
            if bytes_eq(&self.key_values[i].name, name) && bytes_eq(&self.key_values[i].key, key) {
                proof {
                    lemma_assoc_at(self.key_values@, key_value_key(), i as int);
                }
                return Some(i);
            }
            i = i + 1;
        }
        proof {
            lemma_assoc_none(self.key_values@, key_value_key(), (name@, key@));
        }
        None
    }

    /// Whether `caller` currently holds the certificate of the primary
    /// domain of `name`.
    pub fn is_owner(&self, caller: AccountId, name: &Vec<u8>) -> (r: bool)
        requires
            self.wf(),
        ensures
            r == self.spec_is_owner(caller, name@),
    {
        let primary = match crate::name::get_primary_domain(name) {
            Some(p) => p,
            None => {
                return false;
            },
        };
        let rec_idx = match self.find_domain(&primary) {
            Some(i) => i,
            None => {
                return false;
            },
        };
        let nonce = self.domains[rec_idx].nft_nonce;
        match self.find_nft(nonce) {
            Some(j) => self.nft_owners[j].owner == caller,
            None => false,
        }
    }

    /// Whether `caller` may claim `name` at time `now`.
    pub fn can_claim(&self, caller: AccountId, name: &Vec<u8>, now: u64) -> (r: bool)
        requires
            self.wf(),
        ensures
            r == self.spec_can_claim(caller, name@, now),
    {
        if self.is_owner(caller, name) {
            return true;
        }
        if let Some(i) = self.find_reservation(name) {
            let res = &self.reservations[i];
            if res.reserved_for == caller && now <= res.until {
                return true;
            }
        }
        match self.find_domain(name) {
            None => true,
            Some(i) => {
                let expires = self.domains[i].expires_at;
                (now as u128) >= (expires as u128) + (GRACE_PERIOD as u128)
            },
        }
    }

    /// A fresh registry: the default fee schedule, no royalties, the
    /// migration window opening at `now`, the canonical top-level label
    /// allowed, and an exchange rate still to be fetched.
    pub fn init(admin: AccountId, oracle_address: AccountId, now: u64) -> (r: Registry)
        ensures
            r.wf(),
            r.admin == admin,
            r.oracle_address == oracle_address,
            r.domains@.len() == 0,
            r.sub_domains@.len() == 0,
            r.reservations@.len() == 0,
            r.nft_owners@.len() == 0,
            r.next_nft_nonce == 1,
            r.domain_nft_token == None::<Vec<u8>>,
            r.rental_fee == (RentalFee {
                one_letter: 10_000,
                two_letter: 10_000,
                three_letter: 10_000,
                four_letter: 1_000,
                other: 100,
            }),
            r.egld_usd_price == None::<u64>,
            r.royalties == 0,
            r.migration_start_time == now,
            r.allowed_top_level_domains@.len() == 1,
            r.allowed_top_level_domains@[0]@ == crate::name::canonical_tld(),
            r.resolutions@.len() == 0,
            r.key_values@.len() == 0,
            r.pending@.len() == 0,
            r.next_request_id == 1,
    {
        let mut tlds: Vec<Vec<u8>> = Vec::new();
        tlds.push(crate::name::canonical_tld_bytes());
        Registry {
            admin,
            oracle_address,
            domains: Vec::new(),
            sub_domains: Vec::new(),
            reservations: Vec::new(),
            nft_owners: Vec::new(),
            next_nft_nonce: 1,
            domain_nft_token: None,
            rental_fee: RentalFee {
                one_letter: 10_000,
                two_letter: 10_000,
                three_letter: 10_000,
                four_letter: 1_000,
                other: 100,
            },
            egld_usd_price: None,
            royalties: 0,
            migration_start_time: now,
            allowed_top_level_domains: tlds,
            resolutions: Vec::new(),
            key_values: Vec::new(),
            pending: Vec::new(),
            next_request_id: 1,
        }
    }

    /// Issues the certificate token. Only the administrator may issue, and
    /// only once; the token identifier is required before any certificate
    /// can be minted.
    pub fn issue_and_set_all_roles(
        &mut self,
        caller: AccountId,
        token_display_name: Vec<u8>,
        token_ticker: Vec<u8>,
        num_decimals: usize,
    ) -> (r: Result<(), RegistryError>)
        ensures
            match r {
                Ok(()) => old(self).admin == caller && old(self).domain_nft_token
                    == None::<Vec<u8>> && *final(self) == (Registry {
                    domain_nft_token: final(self).domain_nft_token,
                    ..*old(self)
                }) && match final(self).domain_nft_token {
                    Some(t) => t@ == token_ticker@,
                    None => false,
                },
                Err(e) => *final(self) == *old(self) && (e == RegistryError::NotAllowed || e
                    == RegistryError::AlreadyExists) && (e == RegistryError::NotAllowed <==> caller
                    != old(self).admin) && (e == RegistryError::AlreadyExists <==> caller
                    == old(self).admin && old(self).domain_nft_token != None::<Vec<u8>>),
            },
    {
        if caller != self.admin {
            return Err(RegistryError::NotAllowed);
        }
        if self.domain_nft_token.is_some() {
            return Err(RegistryError::AlreadyExists);
        }
        let _ = token_display_name;
        let _ = num_decimals;
        self.domain_nft_token = Some(token_ticker);
        Ok(())
    }

    /// Mutates one bucket of the annual fee schedule; lengths of five or
    /// more share the last bucket. Administrator only.
    pub fn update_price_usd(&mut self, caller: AccountId, domain_length: u64, yearly_rent_usd: u64)
        -> (r: Result<(), RegistryError>)
        ensures
            match r {
                Ok(()) => caller == old(self).admin && *final(self) == (Registry {
                    rental_fee: spec_update_fee(
                        old(self).rental_fee,
                        domain_length,
                        yearly_rent_usd,
                    ),
                    ..*old(self)
                }),
                Err(e) => e == RegistryError::NotAllowed && caller != old(self).admin
                    && *final(self) == *old(self),
            },
    {
        if caller != self.admin {
            return Err(RegistryError::NotAllowed);
        }
        if domain_length == 1 {
            self.rental_fee.one_letter = yearly_rent_usd;
        } else if domain_length == 2 {
            self.rental_fee.two_letter = yearly_rent_usd;
        } else if domain_length == 3 {
            self.rental_fee.three_letter = yearly_rent_usd;
        } else if domain_length == 4 {
            self.rental_fee.four_letter = yearly_rent_usd;
        } else {
            self.rental_fee.other = yearly_rent_usd;
        }
        Ok(())
    }

    /// Asks for an exchange-rate refresh. Administrator only; the host
    /// performs the oracle round trip and reports through
    /// `fetch_egld_usd_prices_callback`.
    pub fn fetch_egld_usd_prices(&self, caller: AccountId) -> (r: Result<(), RegistryError>)
        ensures
            r == (if caller == self.admin {
                Ok::<(), RegistryError>(())
            } else {
                Err::<(), RegistryError>(RegistryError::NotAllowed)
            }),
    {
        if caller != self.admin {
            return Err(RegistryError::NotAllowed);
        }
        Ok(())
    }

    /// Takes the outcome of an exchange-rate round trip. A reported rate
    /// overwrites the cache; failure, including a zero rate, leaves the
    /// previously cached rate unchanged.
    pub fn fetch_egld_usd_prices_callback(&mut self, result: Option<u64>)
        ensures
            match result {
                Some(rate) => if rate > 0 {
                    *final(self) == (Registry { egld_usd_price: Some(rate), ..*old(self) })
                } else {
                    *final(self) == *old(self)
                },
                None => *final(self) == *old(self),
            },
    {
        match result {
            Some(rate) => {
                if rate > 0 {
                    self.egld_usd_price = Some(rate);
                }
            },
            None => {},
        }
    }
}

impl Registry {
    /// Validates a name against this registry's allow-list of top-level
    /// labels.
    pub fn is_name_valid(&self, name: &Vec<u8>) -> (r: Result<(), crate::data::NameFault>)
        ensures
            r == crate::name::spec_validate(
                name@,
                crate::name::views_of(self.allowed_top_level_domains@),
            ),
    {
        crate::name::validate_name(name, &self.allowed_top_level_domains)
    }

    /// The rent owed for `domain_name` over `secs` seconds at the cached
    /// exchange rate. Fails when no rate has been cached yet, and on
    /// arithmetic overflow.
    pub fn rent_price(&self, domain_name: &Vec<u8>, secs: u64) -> (r: Result<u128, RegistryError>)
        ensures
            match self.egld_usd_price {
                None => r == Err::<u128, RegistryError>(RegistryError::ExternalCallFailed),
                Some(rate) => {
                    let lbl = spec_split(domain_name@)[0].len();
                    match r {
                        Ok(p) => crate::fees::rent_price_fits(self.rental_fee, lbl, secs, rate)
                            && p == crate::fees::spec_rent_price(self.rental_fee, lbl, secs, rate),
                        Err(e) => e == RegistryError::Overflow && !crate::fees::rent_price_fits(
                            self.rental_fee,
                            lbl,
                            secs,
                            rate,
                        ),
                    }
                },
            },
    {
        let rate = match self.egld_usd_price {
            Some(rate) => rate,
            None => {
                return Err(RegistryError::ExternalCallFailed);
            },
        };
        let parts = crate::name::split_domain_name(domain_name);
        let label_len = parts[0].len();
        proof {
            assert(crate::name::views_of(parts@)[0] == spec_split(domain_name@)[0]);
        }
        crate::fees::rent_price(&self.rental_fee, label_len, secs, rate)
    }

    /// The record registered under `name`, if any.
    pub fn get_domain(&self, name: &Vec<u8>) -> (r: Option<&DomainName>)
        requires
            self.wf(),
        ensures
            match r {
                Some(d) => self.spec_domain(name@) == Some(*d),
                None => self.spec_domain(name@) == None::<DomainName>,
            },
    {
        match self.find_domain(name) {
            Some(i) => Some(&self.domains[i]),
            None => None,
        }
    }

    /// The reservation of legacy `name`, if any.
    pub fn get_reservation(&self, name: &Vec<u8>) -> (r: Option<&Reservation>)
        requires
            self.wf(),
        ensures
            match r {
                Some(res) => self.spec_reservation(name@) == Some(*res),
                None => self.spec_reservation(name@) == None::<Reservation>,
            },
    {
        match self.find_reservation(name) {
            Some(i) => Some(&self.reservations[i]),
            None => None,
        }
    }

    /// The subdomain entry under `name`, if any.
    pub fn get_sub_domain(&self, name: &Vec<u8>) -> (r: Option<&SubDomain>)
        requires
            self.wf(),
        ensures
            match r {
                Some(e) => self.spec_sub_domain(name@) == Some(*e),
                None => self.spec_sub_domain(name@) == None::<SubDomain>,
            },
    {
        match self.find_sub_domain(name) {
            Some(i) => Some(&self.sub_domains[i]),
            None => None,
        }
    }

    /// The resolution address bound to `name`, if any.
    pub fn resolve(&self, name: &Vec<u8>) -> (r: Option<AccountId>)
        requires
            self.wf(),
        ensures
            r == self.spec_resolution(name@),
    {
        match self.find_resolution(name) {
            Some(i) => Some(self.resolutions[i].address),
            None => None,
        }
    }

    /// The value of the record with `key` scoped to `name`, if any.
    pub fn resolve_domain_name_key(&self, name: &Vec<u8>, key: &Vec<u8>) -> (r: Option<&Vec<u8>>)
        requires
            self.wf(),
        ensures
            match r {
                Some(v) => self.spec_key_value(name@, key@) == Some(v@),
                None => self.spec_key_value(name@, key@) == None::<Seq<u8>>,
            },
    {
        match self.find_key_value(name, key) {
            Some(i) => Some(&self.key_values[i].value),
            None => None,
        }
    }

    /// The identifier of the certificate token, once issued.
    pub fn get_domain_nft_id(&self) -> (r: &Option<Vec<u8>>)
        ensures
            r == &self.domain_nft_token,
    {
        &self.domain_nft_token
    }

    /// The cached exchange rate, absent until the first successful refresh.
    pub fn get_egld_usd_price(&self) -> (r: Option<u64>)
        ensures
            r == self.egld_usd_price,
    {
        self.egld_usd_price
    }

    /// The annual fee schedule.
    pub fn get_prices_usd(&self) -> (r: RentalFee)
        ensures
            r == self.rental_fee,
    {
        self.rental_fee
    }

    /// When the migration window opened.
    pub fn get_migration_start_time(&self) -> (r: u64)
        ensures
            r == self.migration_start_time,
    {
        self.migration_start_time
    }

    /// The royalties attached to minted certificates.
    pub fn get_royalties(&self) -> (r: u64)
        ensures
            r == self.royalties,
    {
        self.royalties
    }

    /// The allow-list of top-level labels.
    pub fn get_allowed_top_level_domains(&self) -> (r: &Vec<Vec<u8>>)
        ensures
            r == &self.allowed_top_level_domains,
    {
        &self.allowed_top_level_domains
    }
}

/// The fee schedule after one bucket is rebound.
pub open spec fn spec_update_fee(f: RentalFee, domain_length: u64, fee: u64) -> RentalFee {
    if domain_length == 1 {
        RentalFee { one_letter: fee, ..f }
    } else if domain_length == 2 {
        RentalFee { two_letter: fee, ..f }
    } else if domain_length == 3 {
        RentalFee { three_letter: fee, ..f }
    } else if domain_length == 4 {
        RentalFee { four_letter: fee, ..f }
    } else {
        RentalFee { other: fee, ..f }
    }
}

} // verus!
