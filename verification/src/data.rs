//! The data model of the registry: domain records and their metadata facets,
//! reservations, subdomains, payments, the fee schedule, and the error
//! taxonomy.

use vstd::prelude::*;

verus! {

/// An account identifier handed in by the hosting environment. The
/// environment authenticates callers; the registry only compares identifiers.
pub type AccountId = u64;

/// A payment currency. `Native` is the primary currency that prices are
/// settled in; every other token is identified by an opaque handle.
#[derive(Clone, Copy, PartialEq, Eq, Structural, Debug)]
pub enum Token {
    Native,
    Other(u64),
}

/// One payment component tendered with a request.
#[derive(Clone, Copy, PartialEq, Eq, Structural, Debug)]
pub struct Payment {
    pub token: Token,
    pub amount: u128,
}

/// Why a name failed validation, or why it cannot be registered.
#[derive(Clone, Copy, PartialEq, Eq, Structural, Debug)]
pub enum NameFault {
    /// The full name, separator included, is not longer than the minimum.
    TooShort,
    /// The full name exceeds the maximum length.
    TooLong,
    /// A byte outside lowercase ascii letters, digits and the separator.
    BadChar,
    /// The name holds no separator, so it has no top-level label.
    MissingTopLevel,
    /// The label after the last separator is not in the allow-list.
    UnknownTopLevel,
    /// The name is valid but does not split into exactly two labels.
    NotRegistrable,
}

/// The error taxonomy of the registry. Every operation fails atomically with
/// one of these reasons.
#[derive(Clone, Copy, PartialEq, Eq, Structural, Debug)]
pub enum RegistryError {
    InvalidName(NameFault),
    NameNotAvailable,
    InsufficientFunds,
    NotAllowed,
    AlreadyRegistered,
    AlreadyExists,
    NotFound,
    DeadlineExceeded,
    ExternalCallFailed,
    Overflow,
}

/// Display metadata of a domain.
#[derive(Clone, Debug)]
pub struct Profile {
    pub name: Vec<u8>,
    pub avatar: Vec<u8>,
    pub location: Vec<u8>,
    pub website: Vec<u8>,
    pub shortbio: Vec<u8>,
}

/// Social-media handles attached to a domain.
#[derive(Clone, Debug)]
pub struct SocialMedia {
    pub telegram: Vec<u8>,
    pub discord: Vec<u8>,
    pub twitter: Vec<u8>,
    pub medium: Vec<u8>,
    pub facebook: Vec<u8>,
    pub other_link: Vec<u8>,
}

/// One named value with a link, kept in an ordered list on a domain.
#[derive(Clone, Debug)]
pub struct TextRecord {
    pub name_value: Vec<u8>,
    pub link: Vec<u8>,
}

/// Addresses of the owner on other networks.
#[derive(Clone, Debug)]
pub struct Wallets {
    pub egld: Vec<u8>,
    pub btc: Vec<u8>,
    pub eth: Vec<u8>,
}

/// The record of a registered name. It is created on first registration and
/// never deleted; expiry, certificate linkage and metadata mutate.
#[derive(Clone, Debug)]
pub struct DomainName {
    pub name: Vec<u8>,
    pub expires_at: u64,
    pub nft_nonce: u64,
    pub profile: Option<Profile>,
    pub social_media: Option<SocialMedia>,
    pub text_record: Option<Vec<TextRecord>>,
    pub wallets: Option<Wallets>,
}

/// The attributes carried on an ownership certificate.
#[derive(Clone, Copy, PartialEq, Eq, Structural, Debug)]
pub struct DomainNameAttributes {
    pub expires_at: u64,
}

/// A domain record offered for acceptance, open until a deadline.
#[derive(Clone, Debug)]
pub struct AcceptRequest {
    pub domain_name: DomainName,
    pub until: u64,
}

/// A price expressed in a given token.
#[derive(Clone, Copy, PartialEq, Eq, Structural, Debug)]
pub struct PriceTag {
    pub token: Token,
    pub nonce: u64,
    pub amount: u128,
}

/// An administrator-granted, time-boxed claim on a legacy name.
#[derive(Clone, Debug)]
pub struct Reservation {
    pub domain_name: Vec<u8>,
    pub until: u64,
    pub reserved_for: AccountId,
}

/// A third-party label beneath a primary domain, bound to a resolution
/// address.
#[derive(Clone, Debug)]
pub struct SubDomain {
    pub name: Vec<u8>,
    pub address: AccountId,
}

/// Annual rent in the stable unit of account, bucketed by the length of the
/// user label; lengths of five or more collapse into `other`.
#[derive(Clone, Copy, PartialEq, Eq, Structural, Debug)]
pub struct RentalFee {
    pub one_letter: u64,
    pub two_letter: u64,
    pub three_letter: u64,
    pub four_letter: u64,
    pub other: u64,
}

/// A rental duration unit, each with a fixed second count.
#[derive(Clone, Copy, PartialEq, Eq, Structural, Debug)]
pub enum PeriodType {
    Year,
    Month,
    Day,
    Hour,
    Minute,
}

/// One entry of the certificate ledger: who currently holds the certificate
/// with the given nonce.
#[derive(Clone, Copy, PartialEq, Eq, Structural, Debug)]
pub struct NftEntry {
    pub nonce: u64,
    pub owner: AccountId,
}

/// The resolution binding of a name to an account.
#[derive(Clone, Debug)]
pub struct ResolutionEntry {
    pub name: Vec<u8>,
    pub address: AccountId,
}

/// One key/value record scoped to a name.
#[derive(Clone, Debug)]
pub struct KeyValueEntry {
    pub name: Vec<u8>,
    pub key: Vec<u8>,
    pub value: Vec<u8>,
}

/// A request captured while its exchange-rate round trip is outstanding. The
/// continuation carries the original caller, payments and parameters so that
/// the operation completes exactly once when the rate is known.
#[derive(Clone, Debug)]
pub enum PendingRequest {
    Register {
        caller: AccountId,
        payments: Vec<Payment>,
        domain_name: Vec<u8>,
        secs: u64,
        assign_to: Option<AccountId>,
    },
    SubDomainReg {
        caller: AccountId,
        payments: Vec<Payment>,
        sub_domain: Vec<u8>,
        address: AccountId,
    },
}

/// One entry of the pending-request table, keyed by a correlation id.
#[derive(Clone, Debug)]
pub struct PendingEntry {
    pub id: u64,
    pub req: PendingRequest,
}

/// What a successful paid operation owes back to the payer: the excess of the
/// tendered native amount over the price, and every non-native payment
/// component, which the registry never retains.
#[derive(Clone, Debug, PartialEq, Eq)]
pub struct Settlement {
    pub recipient: AccountId,
    pub excess: u128,
    pub returned: Vec<Payment>,
}

/// The lifecycle state of a name at a given time.
#[derive(Clone, Copy, PartialEq, Eq, Structural, Debug)]
pub enum DomainState {
    Unregistered,
    Active,
    Grace,
    Reclaimable,
}

} // verus!
