//! Laws of the registry lifecycle, stated and proved over the specification
//! functions that the operations' contracts use.

use vstd::prelude::*;

use crate::constants::MIGRATION_PERIOD;
use crate::data::{AccountId, DomainName, DomainState, RegistryError, Reservation};
use crate::lifecycle::{fresh_claim_effect, renewal_effect, spec_migrate_result};
use crate::name::{lemma_two_label_primary, spec_split};
use crate::registry::Registry;

verus! {

/// Once the grace period after expiry has elapsed with no renewal, the name
/// is open to every caller: any account may claim it, whoever owned it
/// before.
pub proof fn lemma_expired_name_open_to_all(
    s: Registry,
    caller: AccountId,
    name: Seq<u8>,
    now: u64,
)
    requires
        s.spec_state(name, now) == DomainState::Reclaimable,
    ensures
        s.spec_can_claim(caller, name, now),
{
}

/// While a name is active or in its grace period, a caller who neither holds
/// its certificate nor a still-valid reservation of it cannot claim it.
pub proof fn lemma_active_name_protected(s: Registry, caller: AccountId, name: Seq<u8>, now: u64)
    requires
        s.spec_state(name, now) == DomainState::Active || s.spec_state(name, now)
            == DomainState::Grace,
        !s.spec_is_owner(caller, name),
        !s.spec_has_valid_reservation(caller, name, now),
    ensures
        !s.spec_can_claim(caller, name, now),
{
}

/// A migration succeeds at most once per reserved legacy name: a successful
/// migration consumes the reservation, and against any state without the
/// reservation every further attempt, by any caller at any time, reports
/// `NotFound`.
pub proof fn lemma_migrate_exactly_once(s: Registry, caller: AccountId, now: u64, name: Seq<u8>)
    requires
        s.spec_reservation(name) == None::<Reservation>,
    ensures
        spec_migrate_result(s, caller, now, name) == Err::<(), RegistryError>(
            RegistryError::NotFound,
        ),
{
}

/// A fresh claim of a registrable (two-label) name makes its recipient the
/// owner: registration resets ownership to whoever the certificate was
/// minted for.
pub proof fn lemma_fresh_claim_grants_ownership(
    a: Registry,
    b: Registry,
    name: Seq<u8>,
    expires: u64,
    recipient: AccountId,
)
    requires
        fresh_claim_effect(a, b, name, expires, recipient),
        spec_split(name).len() == 2,
    ensures
        b.spec_is_owner(recipient, name),
{
    lemma_two_label_primary(name);
}

/// A renewal leaves the authority over a two-label name with whoever held it
/// before: the certificate is untouched, so every account owns the name
/// afterward exactly when it owned it before.
pub proof fn lemma_renewal_keeps_ownership(
    a: Registry,
    b: Registry,
    name: Seq<u8>,
    rec: DomainName,
    new_expires: u64,
    account: AccountId,
)
    requires
        renewal_effect(a, b, name, rec, new_expires),
        a.spec_domain(name) == Some(rec),
        spec_split(name).len() == 2,
    ensures
        b.spec_is_owner(account, name) == a.spec_is_owner(account, name),
{
    lemma_two_label_primary(name);
}

/// Once the migration window has closed, the holder of a still-stored
/// reservation is reported `DeadlineExceeded`.
pub proof fn lemma_migrate_after_deadline(
    s: Registry,
    res: Reservation,
    caller: AccountId,
    now: u64,
    name: Seq<u8>,
)
    requires
        s.spec_reservation(name) == Some(res),
        res.reserved_for == caller,
        now >= s.migration_start_time + MIGRATION_PERIOD,
    ensures
        spec_migrate_result(s, caller, now, name) == Err::<(), RegistryError>(
            RegistryError::DeadlineExceeded,
        ),
{
}

} // verus!
