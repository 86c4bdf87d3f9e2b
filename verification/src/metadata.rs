//! Owner-gated metadata of a domain record, resolution bindings, scoped
//! key/value records, and the administrator's bulk reservation management.

use vstd::prelude::*;
use vstd::pervasive::VecAdditionalExecFns;

use crate::assoc::{lemma_assoc_push, lemma_assoc_remove, lemma_assoc_update, unique_keys};
use crate::data::{
    AccountId, KeyValueEntry, Profile, RegistryError, Reservation, ResolutionEntry, SocialMedia,
    TextRecord, Wallets,
};
use crate::registry::{
    domain_key, key_value_key, reservation_key, resolution_key, Registry,
};

verus! {

/// The last reservation in `rs` for the name `n`, if any; with sequential
/// upserts the last entry wins.
pub open spec fn spec_bulk_last(rs: Seq<Reservation>, n: Seq<u8>) -> Option<Reservation>
    decreases rs.len(),
{
    if rs.len() == 0 {
        None
    } else if rs.last().domain_name@ == n {
        Some(rs.last())
    } else {
        spec_bulk_last(rs.drop_last(), n)
    }
}

/// Whether `n` is one of the names in `ns`.
pub open spec fn name_listed(ns: Seq<Vec<u8>>, n: Seq<u8>) -> bool {
    exists|i: int| 0 <= i < ns.len() && #[trigger] ns[i]@ == n
}

impl Registry {
    /// Replaces the profile facet of the record of `domain_name` wholesale.
    /// Only the owner of the name's primary domain may update, and the
    /// record must exist.
    pub fn update_domain_overview(
        &mut self,
        caller: AccountId,
        domain_name: &Vec<u8>,
        profile: Profile,
    ) -> (r: Result<(), RegistryError>)
        requires
            old(self).wf(),
        ensures
            final(self).wf(),
            if !old(self).spec_is_owner(caller, domain_name@) {
                r == Err::<(), RegistryError>(RegistryError::NotAllowed) && *final(self) == *old(self)
            } else {
                match old(self).spec_domain(domain_name@) {
                    None => r == Err::<(), RegistryError>(RegistryError::NotFound) && *final(self)
                        == *old(self),
                    Some(o) => {
                        &&& r == Ok::<(), RegistryError>(())
                        &&& match final(self).spec_domain(domain_name@) {
                            Some(d) => d.name == o.name && d.expires_at == o.expires_at
                                && d.nft_nonce == o.nft_nonce && d.profile == Some(profile)
                                && d.social_media == o.social_media && d.text_record
                                == o.text_record && d.wallets == o.wallets,
                            None => false,
                        }
                        &&& forall|n: Seq<u8>|
                            n != domain_name@ ==> final(self).spec_domain(n) == old(self).spec_domain(n)
                        &&& *final(self) == (Registry { domains: final(self).domains, ..*old(self) })
                    },
                }
            },
    {
        if !self.is_owner(caller, domain_name) {
            return Err(RegistryError::NotAllowed);
        }
        let i = match self.find_domain(domain_name) {
            Some(i) => i,
            None => {
                return Err(RegistryError::NotFound);
            },
        };
        proof {
            lemma_assoc_remove(self.domains@, domain_key(), i as int);
        }
        let mut rec = self.domains.remove(i);
        rec.profile = Some(profile);
        proof {
            lemma_assoc_push(self.domains@, domain_key(), rec);
        }
        self.domains.push(rec);
        Ok(())
    }

    /// Replaces the social-media facet of the record of `domain_name`
    /// wholesale; owner only, record must exist.
    pub fn update_domain_socials(
        &mut self,
        caller: AccountId,
        domain_name: &Vec<u8>,
        socials: SocialMedia,
    ) -> (r: Result<(), RegistryError>)
        requires
            old(self).wf(),
        ensures
            final(self).wf(),
            if !old(self).spec_is_owner(caller, domain_name@) {
                r == Err::<(), RegistryError>(RegistryError::NotAllowed) && *final(self) == *old(self)
            } else {
                match old(self).spec_domain(domain_name@) {
                    None => r == Err::<(), RegistryError>(RegistryError::NotFound) && *final(self)
                        == *old(self),
                    Some(o) => {
                        &&& r == Ok::<(), RegistryError>(())
                        &&& match final(self).spec_domain(domain_name@) {
                            Some(d) => d.name == o.name && d.expires_at == o.expires_at
                                && d.nft_nonce == o.nft_nonce && d.profile == o.profile
                                && d.social_media == Some(socials) && d.text_record
                                == o.text_record && d.wallets == o.wallets,
                            None => false,
                        }
                        &&& forall|n: Seq<u8>|
                            n != domain_name@ ==> final(self).spec_domain(n) == old(self).spec_domain(n)
                        &&& *final(self) == (Registry { domains: final(self).domains, ..*old(self) })
                    },
                }
            },
    {
        if !self.is_owner(caller, domain_name) {
            return Err(RegistryError::NotAllowed);
        }
        let i = match self.find_domain(domain_name) {
            Some(i) => i,
            None => {
                return Err(RegistryError::NotFound);
            },
        };
        proof {
            lemma_assoc_remove(self.domains@, domain_key(), i as int);
        }
        let mut rec = self.domains.remove(i);
        rec.social_media = Some(socials);
        proof {
            lemma_assoc_push(self.domains@, domain_key(), rec);
        }
        self.domains.push(rec);
        Ok(())
    }

    /// Replaces the wallets facet of the record of `domain_name` wholesale;
    /// owner only, record must exist.
    pub fn update_domain_wallets(
        &mut self,
        caller: AccountId,
        domain_name: &Vec<u8>,
        wallets: Wallets,
    ) -> (r: Result<(), RegistryError>)
        requires
            old(self).wf(),
        ensures
            final(self).wf(),
            if !old(self).spec_is_owner(caller, domain_name@) {
                r == Err::<(), RegistryError>(RegistryError::NotAllowed) && *final(self) == *old(self)
            } else {
                match old(self).spec_domain(domain_name@) {
                    None => r == Err::<(), RegistryError>(RegistryError::NotFound) && *final(self)
                        == *old(self),
                    Some(o) => {
                        &&& r == Ok::<(), RegistryError>(())
                        &&& match final(self).spec_domain(domain_name@) {
                            Some(d) => d.name == o.name && d.expires_at == o.expires_at
                                && d.nft_nonce == o.nft_nonce && d.profile == o.profile
                                && d.social_media == o.social_media && d.text_record
                                == o.text_record && d.wallets == Some(wallets),
                            None => false,
                        }
                        &&& forall|n: Seq<u8>|
                            n != domain_name@ ==> final(self).spec_domain(n) == old(self).spec_domain(n)
                        &&& *final(self) == (Registry { domains: final(self).domains, ..*old(self) })
                    },
                }
            },
    {
        if !self.is_owner(caller, domain_name) {
            return Err(RegistryError::NotAllowed);
        }
        let i = match self.find_domain(domain_name) {
            Some(i) => i,
            None => {
                return Err(RegistryError::NotFound);
            },
        };
        proof {
            lemma_assoc_remove(self.domains@, domain_key(), i as int);
        }
        let mut rec = self.domains.remove(i);
        rec.wallets = Some(wallets);
        proof {
            lemma_assoc_push(self.domains@, domain_key(), rec);
        }
        self.domains.push(rec);
        Ok(())
    }

    /// Replaces the ordered text-record list of the record of `domain_name`
    /// wholesale; owner only, record must exist.
    pub fn update_domain_textrecord(
        &mut self,
        caller: AccountId,
        domain_name: &Vec<u8>,
        text_record: Vec<TextRecord>,
    ) -> (r: Result<(), RegistryError>)
        requires
            old(self).wf(),
        ensures
            final(self).wf(),
            if !old(self).spec_is_owner(caller, domain_name@) {
                r == Err::<(), RegistryError>(RegistryError::NotAllowed) && *final(self) == *old(self)
            } else {
                match old(self).spec_domain(domain_name@) {
                    None => r == Err::<(), RegistryError>(RegistryError::NotFound) && *final(self)
                        == *old(self),
                    Some(o) => {
                        &&& r == Ok::<(), RegistryError>(())
                        &&& match final(self).spec_domain(domain_name@) {
                            Some(d) => d.name == o.name && d.expires_at == o.expires_at
                                && d.nft_nonce == o.nft_nonce && d.profile == o.profile
                                && d.social_media == o.social_media && d.text_record == Some(
                                text_record,
                            ) && d.wallets == o.wallets,
                            None => false,
                        }
                        &&& forall|n: Seq<u8>|
                            n != domain_name@ ==> final(self).spec_domain(n) == old(self).spec_domain(n)
                        &&& *final(self) == (Registry { domains: final(self).domains, ..*old(self) })
                    },
                }
            },
    {
        if !self.is_owner(caller, domain_name) {
            return Err(RegistryError::NotAllowed);
        }
        let i = match self.find_domain(domain_name) {
            Some(i) => i,
            None => {
                return Err(RegistryError::NotFound);
            },
        };
        proof {
            lemma_assoc_remove(self.domains@, domain_key(), i as int);
        }
        let mut rec = self.domains.remove(i);
        rec.text_record = Some(text_record);
        proof {
            lemma_assoc_push(self.domains@, domain_key(), rec);
        }
        self.domains.push(rec);
        Ok(())
    }

    /// Sets or clears the primary resolution address binding of
    /// `domain_name`; owner only.
    pub fn update_primary_address(
        &mut self,
        caller: AccountId,
        domain_name: Vec<u8>,
        assign_to: Option<AccountId>,
    ) -> (r: Result<(), RegistryError>)
        requires
            old(self).wf(),
        ensures
            final(self).wf(),
            if !old(self).spec_is_owner(caller, domain_name@) {
                r == Err::<(), RegistryError>(RegistryError::NotAllowed) && *final(self) == *old(self)
            } else {
                &&& r == Ok::<(), RegistryError>(())
                &&& final(self).spec_resolution(domain_name@) == assign_to
                &&& forall|n: Seq<u8>|
                    n != domain_name@ ==> final(self).spec_resolution(n) == old(self).spec_resolution(n)
                &&& *final(self) == (Registry {
                    resolutions: final(self).resolutions,
                    ..*old(self)
                })
            },
    {
        if !self.is_owner(caller, &domain_name) {
            return Err(RegistryError::NotAllowed);
        }
        match assign_to {
            Some(addr) => {
                let found = self.find_resolution(&domain_name);
                let entry = ResolutionEntry { name: domain_name, address: addr };
                match found {
                    Some(i) => {
                        proof {
                            lemma_assoc_update(self.resolutions@, resolution_key(), i as int, entry);
                        }
                        self.resolutions.set(i, entry);
                    },
                    None => {
                        proof {
                            lemma_assoc_push(self.resolutions@, resolution_key(), entry);
                        }
                        self.resolutions.push(entry);
                    },
                }
            },
            None => {
                if let Some(i) = self.find_resolution(&domain_name) {
                    proof {
                        lemma_assoc_remove(self.resolutions@, resolution_key(), i as int);
                    }
                    self.resolutions.remove(i);
                }
            },
        }
        Ok(())
    }

    /// Sets or clears the record with `key` scoped to `domain_name`; owner
    /// only.
    pub fn update_key_value(
        &mut self,
        caller: AccountId,
        domain_name: Vec<u8>,
        key: Vec<u8>,
        value: Option<Vec<u8>>,
    ) -> (r: Result<(), RegistryError>)
        requires
            old(self).wf(),
        ensures
            final(self).wf(),
            if !old(self).spec_is_owner(caller, domain_name@) {
                r == Err::<(), RegistryError>(RegistryError::NotAllowed) && *final(self) == *old(self)
            } else {
                &&& r == Ok::<(), RegistryError>(())
                &&& final(self).spec_key_value(domain_name@, key@) == (match value {
                    Some(v) => Some(v@),
                    None => None::<Seq<u8>>,
                })
                &&& forall|n: Seq<u8>, k: Seq<u8>|
                    (n, k) != (domain_name@, key@) ==> final(self).spec_key_value(n, k) == old(self).spec_key_value(n, k)
                &&& *final(self) == (Registry {
                    key_values: final(self).key_values,
                    ..*old(self)
                })
            },
    {
        if !self.is_owner(caller, &domain_name) {
            return Err(RegistryError::NotAllowed);
        }
        match value {
            Some(v) => {
                let found = self.find_key_value(&domain_name, &key);
                let entry = KeyValueEntry { name: domain_name, key, value: v };
                match found {
                    Some(i) => {
                        proof {
                            lemma_assoc_update(self.key_values@, key_value_key(), i as int, entry);
                        }
                        self.key_values.set(i, entry);
                    },
                    None => {
                        proof {
                            lemma_assoc_push(self.key_values@, key_value_key(), entry);
                        }
                        self.key_values.push(entry);
                    },
                }
            },
            None => {
                if let Some(i) = self.find_key_value(&domain_name, &key) {
                    proof {
                        lemma_assoc_remove(self.key_values@, key_value_key(), i as int);
                    }
                    self.key_values.remove(i);
                }
            },
        }
        Ok(())
    }

    /// Bulk-sets reservations, keyed by legacy name; with a name repeated,
    /// the last entry wins. Administrator only.
    pub fn set_reservations(&mut self, caller: AccountId, reservations: Vec<Reservation>) -> (r:
        Result<(), RegistryError>)
        requires
            old(self).wf(),
        ensures
            final(self).wf(),
            match r {
                Ok(()) => caller == old(self).admin && (forall|n: Seq<u8>|
                    final(self).spec_reservation(n) == (match spec_bulk_last(reservations@, n) {
                        Some(x) => Some(x),
                        None => old(self).spec_reservation(n),
                    })) && *final(self) == (Registry {
                    reservations: final(self).reservations,
                    ..*old(self)
                }),
                Err(e) => e == RegistryError::NotAllowed && caller != old(self).admin && *final(self) == *old(self),
            },
    {
        if caller != self.admin {
            return Err(RegistryError::NotAllowed);
        }
        let ghost rs_orig = reservations@;
        let ghost snap = *self;
        let mut rs = reservations;
        proof {
            assert(rs@ =~= rs_orig.skip(0));
            assert(rs_orig.take(0) =~= Seq::<Reservation>::empty());
        }
        while rs.len() > 0
            invariant
                *self == (Registry { reservations: self.reservations, ..snap }),
                unique_keys(self.reservations@, reservation_key()),
                rs@.len() <= rs_orig.len(),
                rs@ == rs_orig.skip(rs_orig.len() - rs@.len()),
                forall|n: Seq<u8>|
                    self.spec_reservation(n) == (match spec_bulk_last(
                        rs_orig.take(rs_orig.len() - rs@.len()),
                        n,
                    ) {
                        Some(x) => Some(x),
                        None => snap.spec_reservation(n),
                    }),
            decreases rs.len(),
        {
            let ghost p = rs_orig.len() - rs@.len();
            let ghost pre = *self;
            proof {
                assert(rs@[0] == rs_orig[p]);
                assert(rs@.remove(0) =~= rs_orig.skip(p + 1));
                assert(rs_orig.take(p + 1).drop_last() =~= rs_orig.take(p));
                assert(rs_orig.take(p + 1).last() == rs_orig[p]);
            }
            let res = rs.remove(0);
            let found = self.find_reservation(&res.domain_name);
            let ghost res_key = res.domain_name@;
            match found {
                Some(i) => {
                    proof {
                        lemma_assoc_update(self.reservations@, reservation_key(), i as int, res);
                    }
                    self.reservations.set(i, res);
                },
                None => {
                    proof {
                        lemma_assoc_push(self.reservations@, reservation_key(), res);
                    }
                    self.reservations.push(res);
                },
            }
            proof {
                assert forall|n: Seq<u8>|
                    self.spec_reservation(n) == (match spec_bulk_last(
                        rs_orig.take(p + 1),
                        n,
                    ) {
                        Some(x) => Some(x),
                        None => snap.spec_reservation(n),
                    }) by {
                    if n != res_key {
                        assert(self.spec_reservation(n) == pre.spec_reservation(n));
                    }
                }
            }
        }
        proof {
            assert(rs_orig.take(rs_orig.len() as int) =~= rs_orig);
        }
        Ok(())
    }

    /// Bulk-clears the reservations of the listed legacy names.
    /// Administrator only.
    pub fn clear_reservations(&mut self, caller: AccountId, domain_names: Vec<Vec<u8>>) -> (r:
        Result<(), RegistryError>)
        requires
            old(self).wf(),
        ensures
            final(self).wf(),
            match r {
                Ok(()) => caller == old(self).admin && (forall|n: Seq<u8>|
                    final(self).spec_reservation(n) == (if name_listed(domain_names@, n) {
                        None
                    } else {
                        old(self).spec_reservation(n)
                    })) && *final(self) == (Registry {
                    reservations: final(self).reservations,
                    ..*old(self)
                }),
                Err(e) => e == RegistryError::NotAllowed && caller != old(self).admin && *final(self) == *old(self),
            },
    {
        if caller != self.admin {
            return Err(RegistryError::NotAllowed);
        }
        let ghost ns_orig = domain_names@;
        let ghost snap = *self;
        let mut ns = domain_names;
        proof {
            assert(ns@ =~= ns_orig.skip(0));
        }
        while ns.len() > 0
            invariant
                *self == (Registry { reservations: self.reservations, ..snap }),
                unique_keys(self.reservations@, reservation_key()),
                ns@.len() <= ns_orig.len(),
                ns@ == ns_orig.skip(ns_orig.len() - ns@.len()),
                forall|n: Seq<u8>|
                    self.spec_reservation(n) == (if name_listed(
                        ns_orig.take(ns_orig.len() - ns@.len()),
                        n,
                    ) {
                        None
                    } else {
                        snap.spec_reservation(n)
                    }),
            decreases ns.len(),
        {
            let ghost p = ns_orig.len() - ns@.len();
            let ghost pre = *self;
            proof {
                assert(ns@[0] == ns_orig[p]);
                assert(ns@.remove(0) =~= ns_orig.skip(p + 1));
            }
            let nm = ns.remove(0);
            if let Some(i) = self.find_reservation(&nm) {
                proof {
                    lemma_assoc_remove(self.reservations@, reservation_key(), i as int);
                }
                self.reservations.remove(i);
            }
            proof {
                assert forall|n: Seq<u8>|
                    self.spec_reservation(n) == (if name_listed(ns_orig.take(p + 1), n) {
                        None
                    } else {
                        snap.spec_reservation(n)
                    }) by {
                    assert(ns_orig.take(p + 1)[p] == ns_orig[p]);
                    if n == nm@ {
                        assert(name_listed(ns_orig.take(p + 1), n));
                        assert(self.spec_reservation(n) == None::<Reservation>);
                    } else {
                        assert(self.spec_reservation(n) == pre.spec_reservation(n));
                        if name_listed(ns_orig.take(p + 1), n) {
                            let w = choose|i: int|
                                0 <= i < ns_orig.take(p + 1).len() && #[trigger] ns_orig.take(
                                    p + 1,
                                )[i]@ == n;
                            assert(ns_orig.take(p)[w] == ns_orig.take(p + 1)[w]);
                            assert(name_listed(ns_orig.take(p), n));
                        } else {
                            if name_listed(ns_orig.take(p), n) {
                                let w = choose|i: int|
                                    0 <= i < ns_orig.take(p).len() && #[trigger] ns_orig.take(p)[i]@
                                        == n;
                                assert(ns_orig.take(p + 1)[w] == ns_orig.take(p)[w]);
                                assert(name_listed(ns_orig.take(p + 1), n));
                            }
                        }
                    }
                }
            }
        }
        proof {
            assert(ns_orig.take(ns_orig.len() as int) =~= ns_orig);
        }
        Ok(())
    }
}

} // verus!
