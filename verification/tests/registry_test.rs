use xn_main::constants::{GRACE_PERIOD, MIGRATION_PERIOD, YEAR_IN_SECONDS};
use xn_main::data::{
    NameFault, Payment, PeriodType, Profile, RegistryError, RentalFee, Reservation, SocialMedia,
    TextRecord, Token, Wallets,
};
use xn_main::fees;
use xn_main::name;
use xn_main::registry::Registry;
use xn_main::settlement;

const OWNER: u64 = 1;
const ORACLE: u64 = 2;
const FIRST_USER: u64 = 3;
const SECOND_USER: u64 = 4;
const RATE: u64 = 268000000000000;

fn fresh() -> Registry {
    let mut reg = Registry::init(OWNER, ORACLE, 0);
    reg.issue_and_set_all_roles(OWNER, b"XN-123456".to_vec(), b"XN-TICKER".to_vec(), 0)
        .unwrap();
    reg
}

fn pay(amount: u128) -> Vec<Payment> {
    vec![Payment { token: Token::Native, amount }]
}

/// Annual fee of the `other` bucket is 100, so one year of rent for a name
/// with a five-letter-or-longer user label is 100 times the rate.
fn year_price() -> u128 {
    100u128 * RATE as u128
}

fn register(reg: &mut Registry, caller: u64, name: &[u8], now: u64, amount: u128) {
    let id = reg
        .register_or_renew(
            caller,
            pay(amount),
            now,
            name.to_vec(),
            1,
            PeriodType::Year,
            None,
        )
        .unwrap();
    reg.register_or_renew_callback(id, Some(RATE), now).unwrap();
}

#[test]
fn validate_accepts_and_rejects_by_rule() {
    let reg = Registry::init(OWNER, ORACLE, 0);
    // valid: length in (3, 256], allowed characters, known top-level label
    assert_eq!(reg.is_name_valid(&b"a.mvx".to_vec()), Ok(()));
    assert_eq!(reg.is_name_valid(&b"alice.mvx".to_vec()), Ok(()));
    assert_eq!(reg.is_name_valid(&b"a1-z".to_vec()), Err(NameFault::BadChar));
    // too short: length is measured on the full string, separator included
    assert_eq!(reg.is_name_valid(&b"a.b".to_vec()), Err(NameFault::TooShort));
    assert_eq!(reg.is_name_valid(&b"abc".to_vec()), Err(NameFault::TooShort));
    // too long: 252 + 4 = 256 is accepted, 257 is not
    let mut just_right = vec![b'a'; 252];
    just_right.extend_from_slice(b".mvx");
    assert_eq!(reg.is_name_valid(&just_right), Ok(()));
    let mut too_long = vec![b'a'; 253];
    too_long.extend_from_slice(b".mvx");
    assert_eq!(reg.is_name_valid(&too_long), Err(NameFault::TooLong));
    // character set: lowercase ascii letters, digits and the separator only
    assert_eq!(reg.is_name_valid(&b"Alice.mvx".to_vec()), Err(NameFault::BadChar));
    assert_eq!(reg.is_name_valid(&b"al_ce.mvx".to_vec()), Err(NameFault::BadChar));
    // a name with no separator has no top-level label
    assert_eq!(reg.is_name_valid(&b"alice".to_vec()), Err(NameFault::MissingTopLevel));
    // the top-level label must match the allow-list exactly
    assert_eq!(reg.is_name_valid(&b"alice.com".to_vec()), Err(NameFault::UnknownTopLevel));
    assert_eq!(reg.is_name_valid(&b"alice.mvxx".to_vec()), Err(NameFault::UnknownTopLevel));
}

#[test]
fn register_rejects_short_name() {
    let mut reg = fresh();
    let r = reg.register_or_renew(
        FIRST_USER,
        pay(year_price()),
        1000,
        b"a.b".to_vec(),
        1,
        PeriodType::Year,
        None,
    );
    assert_eq!(r, Err(RegistryError::InvalidName(NameFault::TooShort)));
}

#[test]
fn register_rejects_three_label_name() {
    let mut reg = fresh();
    let r = reg.register_or_renew(
        FIRST_USER,
        pay(year_price()),
        1000,
        b"a.alice.mvx".to_vec(),
        1,
        PeriodType::Year,
        None,
    );
    assert_eq!(
        r,
        Err(RegistryError::InvalidName(NameFault::NotRegistrable))
    );
}

#[test]
fn renewal_extends_from_previous_expiry() {
    let mut reg = fresh();
    let t: u64 = 1000;
    register(&mut reg, FIRST_USER, b"alice.mvx", t, year_price());
    assert_eq!(
        reg.get_domain(&b"alice.mvx".to_vec()).unwrap().expires_at,
        t + YEAR_IN_SECONDS
    );
    // renewing at t + 10 extends from the previous expiry, not from now
    register(&mut reg, FIRST_USER, b"alice.mvx", t + 10, year_price());
    assert_eq!(
        reg.get_domain(&b"alice.mvx".to_vec()).unwrap().expires_at,
        t + 2 * YEAR_IN_SECONDS
    );
}

#[test]
fn renewal_keeps_certificate() {
    let mut reg = fresh();
    register(&mut reg, FIRST_USER, b"alice.mvx", 1000, year_price());
    let nonce = reg.get_domain(&b"alice.mvx".to_vec()).unwrap().nft_nonce;
    register(&mut reg, FIRST_USER, b"alice.mvx", 2000, year_price());
    assert_eq!(reg.get_domain(&b"alice.mvx".to_vec()).unwrap().nft_nonce, nonce);
    assert!(reg.is_owner_of_nft(FIRST_USER, nonce));
}

#[test]
fn reclaim_after_grace_resets_ownership() {
    let mut reg = fresh();
    let t: u64 = 1000;
    register(&mut reg, FIRST_USER, b"alice.mvx", t, year_price());
    let old_nonce = reg.get_domain(&b"alice.mvx".to_vec()).unwrap().nft_nonce;
    // within the grace period another caller is rejected
    let during_grace = t + YEAR_IN_SECONDS + GRACE_PERIOD - 1;
    let r = reg.register_or_renew(
        SECOND_USER,
        pay(year_price()),
        during_grace,
        b"alice.mvx".to_vec(),
        1,
        PeriodType::Year,
        None,
    );
    assert_eq!(r, Err(RegistryError::NameNotAvailable));
    // once the grace period has elapsed, any caller succeeds and ownership
    // is reset
    let after_grace = t + YEAR_IN_SECONDS + GRACE_PERIOD;
    register(&mut reg, SECOND_USER, b"alice.mvx", after_grace, year_price());
    let rec = reg.get_domain(&b"alice.mvx".to_vec()).unwrap();
    assert_eq!(rec.expires_at, after_grace + YEAR_IN_SECONDS);
    assert_ne!(rec.nft_nonce, old_nonce);
    assert!(reg.is_owner_of_nft(SECOND_USER, rec.nft_nonce));
}

#[test]
fn overpayment_settles_exact_excess() {
    let mut reg = fresh();
    let id = reg
        .register_or_renew(
            FIRST_USER,
            pay(year_price() + 77),
            1000,
            b"alice.mvx".to_vec(),
            1,
            PeriodType::Year,
            None,
        )
        .unwrap();
    let settlement = reg.register_or_renew_callback(id, Some(RATE), 1000).unwrap();
    assert_eq!(settlement.excess, 77);
    assert_eq!(settlement.recipient, FIRST_USER);
    assert!(settlement.returned.is_empty());
}

#[test]
fn underpayment_fails_with_insufficient_funds() {
    let mut reg = fresh();
    let id = reg
        .register_or_renew(
            FIRST_USER,
            pay(year_price() - 1),
            1000,
            b"alice.mvx".to_vec(),
            1,
            PeriodType::Year,
            None,
        )
        .unwrap();
    let r = reg.register_or_renew_callback(id, Some(RATE), 1000);
    assert_eq!(r, Err(RegistryError::InsufficientFunds));
    assert!(reg.get_domain(&b"alice.mvx".to_vec()).is_none());
}

#[test]
fn foreign_payments_are_returned() {
    let mut reg = fresh();
    let payments = vec![
        Payment { token: Token::Other(9), amount: 5 },
        Payment { token: Token::Native, amount: year_price() },
        Payment { token: Token::Other(7), amount: 11 },
    ];
    let id = reg
        .register_or_renew(
            FIRST_USER,
            payments,
            1000,
            b"alice.mvx".to_vec(),
            1,
            PeriodType::Year,
            None,
        )
        .unwrap();
    let settlement = reg.register_or_renew_callback(id, Some(RATE), 1000).unwrap();
    assert_eq!(settlement.excess, 0);
    assert_eq!(
        settlement.returned,
        vec![
            Payment { token: Token::Other(9), amount: 5 },
            Payment { token: Token::Other(7), amount: 11 },
        ]
    );
}

#[test]
fn subdomain_only_by_primary_owner() {
    let mut reg = fresh();
    register(&mut reg, FIRST_USER, b"alice.mvx", 1000, year_price());
    let r = reg.register_sub_domain(
        SECOND_USER,
        pay(year_price()),
        b"a.alice.mvx".to_vec(),
        SECOND_USER,
    );
    assert_eq!(r, Err(RegistryError::NotAllowed));
}

#[test]
fn duplicate_subdomain_fails_with_already_exists() {
    let mut reg = fresh();
    register(&mut reg, FIRST_USER, b"alice.mvx", 1000, year_price());
    let id = reg
        .register_sub_domain(FIRST_USER, pay(year_price()), b"a.alice.mvx".to_vec(), SECOND_USER)
        .unwrap();
    reg.register_subdomain_callback(id, Some(RATE)).unwrap();
    let r = reg.register_sub_domain(
        FIRST_USER,
        pay(year_price()),
        b"a.alice.mvx".to_vec(),
        SECOND_USER,
    );
    assert_eq!(r, Err(RegistryError::AlreadyExists));
}

#[test]
fn removing_missing_subdomain_fails_with_not_found() {
    let mut reg = fresh();
    register(&mut reg, FIRST_USER, b"alice.mvx", 1000, year_price());
    let r = reg.remove_sub_domain(FIRST_USER, &b"a.alice.mvx".to_vec(), SECOND_USER);
    assert_eq!(r, Err(RegistryError::NotFound));
    // a pair with the wrong address does not exist either
    let id = reg
        .register_sub_domain(FIRST_USER, pay(year_price()), b"a.alice.mvx".to_vec(), SECOND_USER)
        .unwrap();
    reg.register_subdomain_callback(id, Some(RATE)).unwrap();
    let r = reg.remove_sub_domain(FIRST_USER, &b"a.alice.mvx".to_vec(), FIRST_USER);
    assert_eq!(r, Err(RegistryError::NotFound));
    // the exact pair is removed
    reg.remove_sub_domain(FIRST_USER, &b"a.alice.mvx".to_vec(), SECOND_USER)
        .unwrap();
    assert!(reg.get_sub_domain(&b"a.alice.mvx".to_vec()).is_none());
}

#[test]
fn migrate_exactly_once() {
    let mut reg = fresh();
    reg.set_reservations(
        OWNER,
        vec![Reservation {
            domain_name: b"alice.elrond".to_vec(),
            until: 5000,
            reserved_for: FIRST_USER,
        }],
    )
    .unwrap();
    // held by someone else
    let r = reg.migrate_domain(SECOND_USER, 1000, &b"alice.elrond".to_vec());
    assert_eq!(r, Err(RegistryError::NotAllowed));
    // consumed exactly once
    reg.migrate_domain(FIRST_USER, 1000, &b"alice.elrond".to_vec()).unwrap();
    assert!(reg.get_reservation(&b"alice.elrond".to_vec()).is_none());
    let rec = reg.get_domain(&b"alice.mvx".to_vec()).unwrap();
    assert_eq!(rec.expires_at, 5000);
    assert!(reg.is_owner_of_nft(FIRST_USER, rec.nft_nonce));
    let r = reg.migrate_domain(FIRST_USER, 1000, &b"alice.elrond".to_vec());
    assert_eq!(r, Err(RegistryError::NotFound));
}

#[test]
fn migrate_to_taken_name_fails() {
    let mut reg = fresh();
    register(&mut reg, SECOND_USER, b"alice.mvx", 100, year_price());
    reg.set_reservations(
        OWNER,
        vec![Reservation {
            domain_name: b"alice.elrond".to_vec(),
            until: 5000,
            reserved_for: FIRST_USER,
        }],
    )
    .unwrap();
    let r = reg.migrate_domain(FIRST_USER, 1000, &b"alice.elrond".to_vec());
    assert_eq!(r, Err(RegistryError::AlreadyRegistered));
    // the reservation is not consumed by the failed attempt
    assert!(reg.get_reservation(&b"alice.elrond".to_vec()).is_some());
}

#[test]
fn migrate_after_deadline_fails() {
    let mut reg = fresh();
    reg.set_reservations(
        OWNER,
        vec![Reservation {
            domain_name: b"alice.elrond".to_vec(),
            until: u64::MAX,
            reserved_for: FIRST_USER,
        }],
    )
    .unwrap();
    let too_late = MIGRATION_PERIOD; // the window opened at time zero
    let r = reg.migrate_domain(FIRST_USER, too_late, &b"alice.elrond".to_vec());
    assert_eq!(r, Err(RegistryError::DeadlineExceeded));
    // just inside the window it still succeeds
    reg.migrate_domain(FIRST_USER, too_late - 1, &b"alice.elrond".to_vec())
        .unwrap();
}

#[test]
fn refresh_failure_keeps_cached_rate() {
    let mut reg = fresh();
    reg.fetch_egld_usd_prices_callback(Some(RATE));
    assert_eq!(reg.get_egld_usd_price(), Some(RATE));
    // a failed refresh leaves the previous value in place
    reg.fetch_egld_usd_prices_callback(None);
    assert_eq!(reg.get_egld_usd_price(), Some(RATE));
    // a zero rate is invalid and is not cached either
    reg.fetch_egld_usd_prices_callback(Some(0));
    assert_eq!(reg.get_egld_usd_price(), Some(RATE));
}

#[test]
fn pending_registration_fails_cleanly_on_bad_rate() {
    let mut reg = fresh();
    let id = reg
        .register_or_renew(
            FIRST_USER,
            pay(year_price()),
            1000,
            b"alice.mvx".to_vec(),
            1,
            PeriodType::Year,
            None,
        )
        .unwrap();
    let r = reg.register_or_renew_callback(id, None, 1000);
    assert_eq!(r, Err(RegistryError::ExternalCallFailed));
    assert!(reg.get_domain(&b"alice.mvx".to_vec()).is_none());
    // the request was consumed, so it cannot complete twice
    let r = reg.register_or_renew_callback(id, Some(RATE), 1000);
    assert_eq!(r, Err(RegistryError::NotFound));
    // a zero rate never completes a registration
    let id = reg
        .register_or_renew(
            FIRST_USER,
            pay(year_price()),
            1000,
            b"alice.mvx".to_vec(),
            1,
            PeriodType::Year,
            None,
        )
        .unwrap();
    let r = reg.register_or_renew_callback(id, Some(0), 1000);
    assert_eq!(r, Err(RegistryError::ExternalCallFailed));
    assert!(reg.get_domain(&b"alice.mvx".to_vec()).is_none());
}

#[test]
fn rent_price_formula_is_exact() {
    let fees_table = RentalFee {
        one_letter: 10_000,
        two_letter: 9_000,
        three_letter: 8_000,
        four_letter: 1_000,
        other: 100,
    };
    // fee * seconds * rate / seconds-in-a-year, truncating
    assert_eq!(fees::rent_price(&fees_table, 1, YEAR_IN_SECONDS, 2), Ok(20_000));
    assert_eq!(fees_table.two_letter, 9_000);
    assert_eq!(fees::rent_price(&fees_table, 2, YEAR_IN_SECONDS, 3), Ok(27_000));
    assert_eq!(fees::rent_price(&fees_table, 4, YEAR_IN_SECONDS, 1), Ok(1_000));
    // five or more letters collapse into the last bucket
    assert_eq!(fees::rent_price(&fees_table, 5, YEAR_IN_SECONDS, 1), Ok(100));
    assert_eq!(fees::rent_price(&fees_table, 42, YEAR_IN_SECONDS, 1), Ok(100));
    // half a year at rate 1 truncates toward zero
    assert_eq!(fees::rent_price(&fees_table, 1, YEAR_IN_SECONDS / 2 + 1, 1), Ok(5_000));
    // overflow fails the operation rather than wrapping
    let huge = RentalFee {
        one_letter: u64::MAX,
        two_letter: u64::MAX,
        three_letter: u64::MAX,
        four_letter: u64::MAX,
        other: u64::MAX,
    };
    assert_eq!(
        fees::rent_price(&huge, 5, u64::MAX, u64::MAX),
        Err(RegistryError::Overflow)
    );
}

#[test]
fn update_price_usd_rebinds_one_bucket() {
    let mut reg = fresh();
    assert_eq!(
        reg.update_price_usd(FIRST_USER, 1, 42),
        Err(RegistryError::NotAllowed)
    );
    reg.update_price_usd(OWNER, 1, 42).unwrap();
    reg.update_price_usd(OWNER, 4, 43).unwrap();
    reg.update_price_usd(OWNER, 9, 44).unwrap();
    let fees_table = reg.get_prices_usd();
    assert_eq!(fees_table.one_letter, 42);
    assert_eq!(fees_table.two_letter, 10_000);
    assert_eq!(fees_table.four_letter, 43);
    assert_eq!(fees_table.other, 44);
}

#[test]
fn settlement_helpers_are_exact() {
    assert_eq!(settlement::settle_excess(10, 15), 5);
    assert_eq!(settlement::settle_excess(10, 10), 0);
    let payments = vec![
        Payment { token: Token::Other(1), amount: 3 },
        Payment { token: Token::Native, amount: 100 },
        Payment { token: Token::Other(2), amount: 4 },
        Payment { token: Token::Native, amount: 200 },
    ];
    assert_eq!(settlement::first_native_amount(&payments), 100);
    assert_eq!(
        settlement::refund_with_detail(&payments),
        vec![
            Payment { token: Token::Other(1), amount: 3 },
            Payment { token: Token::Other(2), amount: 4 },
        ]
    );
}

#[test]
fn split_and_primary_domain() {
    let parts = name::split_domain_name(&b"a.alice.mvx".to_vec());
    assert_eq!(parts.len(), 3);
    assert_eq!(parts[0], b"a".to_vec());
    assert_eq!(parts[1], b"alice".to_vec());
    assert_eq!(parts[2], b"mvx".to_vec());
    assert_eq!(
        name::get_primary_domain(&b"a.alice.mvx".to_vec()),
        Some(b"alice.mvx".to_vec())
    );
    assert_eq!(
        name::get_primary_domain(&b"alice.mvx".to_vec()),
        Some(b"alice.mvx".to_vec())
    );
    assert_eq!(name::get_primary_domain(&b"alice".to_vec()), None);
    assert!(name::check_name_char(b'a'));
    assert!(name::check_name_char(b'z'));
    assert!(name::check_name_char(b'0'));
    assert!(name::check_name_char(b'9'));
    assert!(name::check_name_char(b'.'));
    assert!(!name::check_name_char(b'A'));
    assert!(!name::check_name_char(b'-'));
    assert!(!name::check_name_char(b'_'));
}

#[test]
fn metadata_updates_are_owner_gated() {
    let mut reg = fresh();
    register(&mut reg, FIRST_USER, b"alice.mvx", 1000, year_price());
    let profile = Profile {
        name: b"alice".to_vec(),
        avatar: b"img".to_vec(),
        location: b"moon".to_vec(),
        website: b"w".to_vec(),
        shortbio: b"b".to_vec(),
    };
    let r = reg.update_domain_overview(SECOND_USER, &b"alice.mvx".to_vec(), profile.clone());
    assert_eq!(r, Err(RegistryError::NotAllowed));
    reg.update_domain_overview(FIRST_USER, &b"alice.mvx".to_vec(), profile)
        .unwrap();
    let rec = reg.get_domain(&b"alice.mvx".to_vec()).unwrap();
    assert_eq!(rec.profile.as_ref().unwrap().name, b"alice".to_vec());
    assert_eq!(rec.expires_at, 1000 + YEAR_IN_SECONDS);
}

#[test]
fn socials_wallets_and_textrecord_facets() {
    let mut reg = fresh();
    register(&mut reg, FIRST_USER, b"alice.mvx", 1000, year_price());
    let socials = SocialMedia {
        telegram: b"t".to_vec(),
        discord: b"d".to_vec(),
        twitter: b"x".to_vec(),
        medium: b"m".to_vec(),
        facebook: b"f".to_vec(),
        other_link: b"o".to_vec(),
    };
    assert_eq!(
        reg.update_domain_socials(SECOND_USER, &b"alice.mvx".to_vec(), socials.clone()),
        Err(RegistryError::NotAllowed)
    );
    reg.update_domain_socials(FIRST_USER, &b"alice.mvx".to_vec(), socials)
        .unwrap();
    let wallets = Wallets { egld: b"e".to_vec(), btc: b"b".to_vec(), eth: b"h".to_vec() };
    reg.update_domain_wallets(FIRST_USER, &b"alice.mvx".to_vec(), wallets)
        .unwrap();
    let records = vec![TextRecord { name_value: b"k=v".to_vec(), link: b"l".to_vec() }];
    reg.update_domain_textrecord(FIRST_USER, &b"alice.mvx".to_vec(), records)
        .unwrap();
    let rec = reg.get_domain(&b"alice.mvx".to_vec()).unwrap();
    // each facet was replaced wholesale and the others kept
    assert_eq!(rec.social_media.as_ref().unwrap().twitter, b"x".to_vec());
    assert_eq!(rec.wallets.as_ref().unwrap().btc, b"b".to_vec());
    assert_eq!(rec.text_record.as_ref().unwrap()[0].name_value, b"k=v".to_vec());
    assert!(rec.profile.is_none());
    // with no record there is no owner, so a facet update is not allowed
    assert_eq!(
        reg.update_domain_wallets(
            FIRST_USER,
            &b"bob.mvx".to_vec(),
            Wallets { egld: vec![], btc: vec![], eth: vec![] },
        ),
        Err(RegistryError::NotAllowed)
    );
}

#[test]
fn subdomain_payment_and_rate_failures() {
    let mut reg = fresh();
    register(&mut reg, FIRST_USER, b"alice.mvx", 1000, year_price());
    // the flat subdomain fee converted through the rate: 2_500_000_000 / 50 = 50_000_000
    let id = reg
        .register_sub_domain(FIRST_USER, pay(49_999_999), b"a.alice.mvx".to_vec(), SECOND_USER)
        .unwrap();
    assert_eq!(
        reg.register_subdomain_callback(id, Some(50)),
        Err(RegistryError::InsufficientFunds)
    );
    assert!(reg.get_sub_domain(&b"a.alice.mvx".to_vec()).is_none());
    // a failed rate round trip fails the request cleanly
    let id = reg
        .register_sub_domain(FIRST_USER, pay(50_000_000), b"a.alice.mvx".to_vec(), SECOND_USER)
        .unwrap();
    assert_eq!(
        reg.register_subdomain_callback(id, None),
        Err(RegistryError::ExternalCallFailed)
    );
    assert!(reg.get_sub_domain(&b"a.alice.mvx".to_vec()).is_none());
    // with the exact fee tendered the subdomain is bound and nothing is owed
    let id = reg
        .register_sub_domain(FIRST_USER, pay(50_000_000), b"a.alice.mvx".to_vec(), SECOND_USER)
        .unwrap();
    let settlement = reg.register_subdomain_callback(id, Some(50)).unwrap();
    assert_eq!(settlement.excess, 0);
    assert_eq!(
        reg.get_sub_domain(&b"a.alice.mvx".to_vec()).unwrap().address,
        SECOND_USER
    );
}

#[test]
fn key_value_and_resolution_records() {
    let mut reg = fresh();
    register(&mut reg, FIRST_USER, b"alice.mvx", 1000, year_price());
    // a scoped key/value record is set and cleared by the owner alone
    let r = reg.update_key_value(
        SECOND_USER,
        b"alice.mvx".to_vec(),
        b"k".to_vec(),
        Some(b"v".to_vec()),
    );
    assert_eq!(r, Err(RegistryError::NotAllowed));
    reg.update_key_value(FIRST_USER, b"alice.mvx".to_vec(), b"k".to_vec(), Some(b"v".to_vec()))
        .unwrap();
    assert_eq!(
        reg.resolve_domain_name_key(&b"alice.mvx".to_vec(), &b"k".to_vec()),
        Some(&b"v".to_vec())
    );
    reg.update_key_value(FIRST_USER, b"alice.mvx".to_vec(), b"k".to_vec(), None)
        .unwrap();
    assert!(reg.resolve_domain_name_key(&b"alice.mvx".to_vec(), &b"k".to_vec()).is_none());
    // the primary resolution binding is set and cleared the same way
    reg.update_primary_address(FIRST_USER, b"alice.mvx".to_vec(), Some(SECOND_USER))
        .unwrap();
    assert_eq!(reg.resolve(&b"alice.mvx".to_vec()), Some(SECOND_USER));
    reg.update_primary_address(FIRST_USER, b"alice.mvx".to_vec(), None).unwrap();
    assert_eq!(reg.resolve(&b"alice.mvx".to_vec()), None);
}

#[test]
fn transfer_rejects_self_and_non_owner() {
    let mut reg = fresh();
    register(&mut reg, FIRST_USER, b"alice.mvx", 1000, year_price());
    assert_eq!(
        reg.transfer_domain(SECOND_USER, &b"alice.mvx".to_vec(), SECOND_USER),
        Err(RegistryError::NotAllowed)
    );
    assert_eq!(
        reg.transfer_domain(FIRST_USER, &b"alice.mvx".to_vec(), FIRST_USER),
        Err(RegistryError::NotAllowed)
    );
    assert_eq!(
        reg.transfer_domain(FIRST_USER, &b"bob.mvx".to_vec(), SECOND_USER),
        Err(RegistryError::NotFound)
    );
}

#[test]
fn transfer_clears_subdomains() {
    let mut reg = fresh();
    register(&mut reg, FIRST_USER, b"alice.mvx", 1000, year_price());
    let id = reg
        .register_sub_domain(FIRST_USER, pay(year_price()), b"a.alice.mvx".to_vec(), SECOND_USER)
        .unwrap();
    reg.register_subdomain_callback(id, Some(RATE)).unwrap();
    assert!(reg.get_sub_domain(&b"a.alice.mvx".to_vec()).is_some());
    reg.transfer_domain(FIRST_USER, &b"alice.mvx".to_vec(), SECOND_USER)
        .unwrap();
    assert!(reg.get_sub_domain(&b"a.alice.mvx".to_vec()).is_none());
}

#[test]
fn expired_reservation_is_treated_as_absent() {
    let mut reg = fresh();
    register(&mut reg, FIRST_USER, b"alice.mvx", 1000, year_price());
    // a reservation of the active name, already expired at the time of the
    // call, neither helps its holder nor blocks anyone
    reg.set_reservations(
        OWNER,
        vec![Reservation {
            domain_name: b"alice.mvx".to_vec(),
            until: 2000,
            reserved_for: SECOND_USER,
        }],
    )
    .unwrap();
    let r = reg.register_or_renew(
        SECOND_USER,
        pay(year_price()),
        3000,
        b"alice.mvx".to_vec(),
        1,
        PeriodType::Year,
        None,
    );
    assert_eq!(r, Err(RegistryError::NameNotAvailable));
    // a still-valid reservation lets its holder through even while the name
    // is active
    let r = reg.register_or_renew(
        SECOND_USER,
        pay(year_price()),
        1500,
        b"alice.mvx".to_vec(),
        1,
        PeriodType::Year,
        None,
    );
    assert!(r.is_ok());
}

#[test]
fn issue_token_is_admin_only_and_once() {
    let mut reg = Registry::init(OWNER, ORACLE, 0);
    assert_eq!(
        reg.issue_and_set_all_roles(FIRST_USER, b"n".to_vec(), b"t".to_vec(), 0),
        Err(RegistryError::NotAllowed)
    );
    reg.issue_and_set_all_roles(OWNER, b"n".to_vec(), b"t".to_vec(), 0).unwrap();
    assert_eq!(
        reg.issue_and_set_all_roles(OWNER, b"n".to_vec(), b"t".to_vec(), 0),
        Err(RegistryError::AlreadyExists)
    );
    // registration cannot complete while no certificate token is issued
    let mut reg2 = Registry::init(OWNER, ORACLE, 0);
    let id = reg2
        .register_or_renew(
            FIRST_USER,
            pay(year_price()),
            1000,
            b"alice.mvx".to_vec(),
            1,
            PeriodType::Year,
            None,
        )
        .unwrap();
    assert_eq!(
        reg2.register_or_renew_callback(id, Some(RATE), 1000),
        Err(RegistryError::ExternalCallFailed)
    );
}

#[test]
fn init_defaults() {
    let reg = Registry::init(OWNER, ORACLE, 777);
    let fees_table = reg.get_prices_usd();
    assert_eq!(fees_table.one_letter, 10_000);
    assert_eq!(fees_table.two_letter, 10_000);
    assert_eq!(fees_table.three_letter, 10_000);
    assert_eq!(fees_table.four_letter, 1_000);
    assert_eq!(fees_table.other, 100);
    assert_eq!(reg.get_royalties(), 0);
    assert_eq!(reg.get_migration_start_time(), 777);
    assert_eq!(reg.get_allowed_top_level_domains(), &vec![b"mvx".to_vec()]);
    assert_eq!(reg.get_egld_usd_price(), None);
    assert!(reg.get_domain_nft_id().is_none());
}
