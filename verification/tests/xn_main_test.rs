use xn_main::data::{Payment, PeriodType, Reservation, Token};
use xn_main::registry::Registry;

const TOKEN_NAME: &[u8] = b"XN-123456";
const TOKEN_TICKER: &[u8] = b"XN-TICKER";
const YEAR_IN_SECONDS: u64 = 365 * 24 * 60 * 60;
const USD_TO_EGLD: u64 = 268000000000000;

const OWNER: u64 = 1;
const ORACLE: u64 = 2;
const FIRST_USER: u64 = 3;
const SECOND_USER: u64 = 4;

fn setup_contract() -> Registry {
    Registry::init(OWNER, ORACLE, 0)
}

fn issue_token(reg: &mut Registry) {
    reg.issue_and_set_all_roles(OWNER, TOKEN_NAME.to_vec(), TOKEN_TICKER.to_vec(), 0)
        .unwrap();
}

fn native_payment(amount: u128) -> Vec<Payment> {
    vec![Payment { token: Token::Native, amount }]
}

#[test]
fn init_test() {
    let contract_setup = setup_contract();
    let _ = contract_setup;
}

#[test]
fn issue_token_test() {
    let mut contract_setup = setup_contract();
    issue_token(&mut contract_setup);
    let is_empty = contract_setup.get_domain_nft_id().is_none();
    // check if NFT issued
    assert_eq!(is_empty, false);
}

#[test]
fn register_or_renew_test() {
    let mut sc = setup_contract();
    let block_timestamp: u64 = 1000;
    let payment = 100_000u128 * USD_TO_EGLD as u128;

    let domain_name = b"first.mvx".to_vec();
    let period: u8 = 1;
    let mut is_empty = sc.get_domain_nft_id().is_none();
    assert_eq!(is_empty, true);
    issue_token(&mut sc);
    is_empty = sc.get_domain_nft_id().is_none();
    assert_eq!(is_empty, false);
    let id = sc
        .register_or_renew(
            FIRST_USER,
            native_payment(payment),
            block_timestamp,
            domain_name.clone(),
            period,
            PeriodType::Year,
            None,
        )
        .unwrap();
    sc.register_or_renew_callback(id, Some(USD_TO_EGLD), block_timestamp)
        .unwrap();

    let empty_domain_record = sc.get_domain(&domain_name).is_none();
    // check if domain_record with domain_name exists
    assert_eq!(empty_domain_record, false);
    let domain_record = sc.get_domain(&domain_name).unwrap();
    // check saved values of domain_record with inputs
    assert_eq!(domain_record.name, domain_name);
    assert_eq!(
        domain_record.expires_at,
        block_timestamp + period as u64 * YEAR_IN_SECONDS
    );
    let nonce = domain_record.nft_nonce;
    // check if domain owner is first user
    assert!(sc.is_owner_of_nft(FIRST_USER, nonce));
}

#[test]
fn gift() {
    let mut sc = setup_contract();
    let block_timestamp: u64 = 1000;
    let payment = 100_000u128 * USD_TO_EGLD as u128;

    let domain_name = b"first.mvx".to_vec();
    let period: u8 = 1;
    let mut is_empty = sc.get_domain_nft_id().is_none();
    assert_eq!(is_empty, true);
    issue_token(&mut sc);
    is_empty = sc.get_domain_nft_id().is_none();
    assert_eq!(is_empty, false);
    let id = sc
        .register_or_renew(
            FIRST_USER,
            native_payment(payment),
            block_timestamp,
            domain_name.clone(),
            period,
            PeriodType::Year,
            Some(SECOND_USER),
        )
        .unwrap();
    sc.register_or_renew_callback(id, Some(USD_TO_EGLD), block_timestamp)
        .unwrap();

    let empty_domain_record = sc.get_domain(&domain_name).is_none();
    // check if domain_record with domain_name exists
    assert_eq!(empty_domain_record, false);
    let domain_record = sc.get_domain(&domain_name).unwrap();
    // check saved values of domain_record with inputs
    assert_eq!(domain_record.name, domain_name);
    assert_eq!(
        domain_record.expires_at,
        block_timestamp + period as u64 * YEAR_IN_SECONDS
    );
    let nonce = domain_record.nft_nonce;
    // check if domain owner is second user
    assert!(sc.is_owner_of_nft(SECOND_USER, nonce));
}

#[test]
fn transfer() {
    let mut sc = setup_contract();
    let block_timestamp: u64 = 1000;
    let payment = 100_000u128 * USD_TO_EGLD as u128;

    let domain_name = b"first.mvx".to_vec();
    let period: u8 = 1;
    let mut is_empty = sc.get_domain_nft_id().is_none();
    assert_eq!(is_empty, true);
    issue_token(&mut sc);
    is_empty = sc.get_domain_nft_id().is_none();
    assert_eq!(is_empty, false);
    let id = sc
        .register_or_renew(
            FIRST_USER,
            native_payment(payment),
            block_timestamp,
            domain_name.clone(),
            period,
            PeriodType::Year,
            None,
        )
        .unwrap();
    sc.register_or_renew_callback(id, Some(USD_TO_EGLD), block_timestamp)
        .unwrap();

    let empty_domain_record = sc.get_domain(&domain_name).is_none();
    // check if domain_record with domain_name exists
    assert_eq!(empty_domain_record, false);
    let domain_record = sc.get_domain(&domain_name).unwrap();
    // check saved values of domain_record with inputs
    assert_eq!(domain_record.name, domain_name);
    assert_eq!(
        domain_record.expires_at,
        block_timestamp + period as u64 * YEAR_IN_SECONDS
    );
    let nonce = domain_record.nft_nonce;
    // check if domain owner is first user
    assert!(sc.is_owner_of_nft(FIRST_USER, nonce));

    // transfer the ownership certificate
    sc.transfer_domain(FIRST_USER, &domain_name, SECOND_USER).unwrap();
    // check if domain owner is second user
    assert!(sc.is_owner_of_nft(SECOND_USER, nonce));
}

#[test]
fn register_sub_domain() {
    let mut sc = setup_contract();
    let block_timestamp: u64 = 1000;
    let payment = 100_000u128 * USD_TO_EGLD as u128;

    let domain_name = b"first.mvx".to_vec();
    let sub_domain_name = b"vector.first.mvx".to_vec();
    let period: u8 = 1;
    let mut is_empty = sc.get_domain_nft_id().is_none();
    assert_eq!(is_empty, true);
    issue_token(&mut sc);
    is_empty = sc.get_domain_nft_id().is_none();
    assert_eq!(is_empty, false);
    let id = sc
        .register_or_renew(
            FIRST_USER,
            native_payment(payment),
            block_timestamp,
            domain_name.clone(),
            period,
            PeriodType::Year,
            None,
        )
        .unwrap();
    sc.register_or_renew_callback(id, Some(USD_TO_EGLD), block_timestamp)
        .unwrap();

    let empty_domain_record = sc.get_domain(&domain_name).is_none();
    // check if domain_record with domain_name exists
    assert_eq!(empty_domain_record, false);
    let domain_record = sc.get_domain(&domain_name).unwrap();
    // check saved values of domain_record with inputs
    assert_eq!(domain_record.name, domain_name);
    assert_eq!(
        domain_record.expires_at,
        block_timestamp + period as u64 * YEAR_IN_SECONDS
    );
    let nonce = domain_record.nft_nonce;
    // check if domain owner is first user
    assert!(sc.is_owner_of_nft(FIRST_USER, nonce));

    // bind the subdomain to the second user
    let sub_id = sc
        .register_sub_domain(
            FIRST_USER,
            native_payment(payment),
            sub_domain_name.clone(),
            SECOND_USER,
        )
        .unwrap();
    sc.register_subdomain_callback(sub_id, Some(USD_TO_EGLD)).unwrap();
    // check if the subdomain resolves to the second user
    let entry = sc.get_sub_domain(&sub_domain_name).unwrap();
    assert_eq!(entry.address, SECOND_USER);
}

#[test]
fn set_reservations() {
    let mut sc = setup_contract();
    let block_timestamp: u64 = 1000;

    let first_old_domain_name = b"first.elrond".to_vec();
    let second_old_domain_name = b"second.elrond".to_vec();
    let first_old_domain_until = block_timestamp + 30 * 24 * 60 * 60; // 1 month
    let second_old_domain_until = block_timestamp + 2 * 30 * 24 * 60 * 60; // 2 month
    let reservations = vec![
        Reservation {
            domain_name: first_old_domain_name.clone(),
            until: first_old_domain_until,
            reserved_for: FIRST_USER,
        },
        Reservation {
            domain_name: second_old_domain_name.clone(),
            until: second_old_domain_until,
            reserved_for: SECOND_USER,
        },
    ];
    sc.set_reservations(OWNER, reservations).unwrap();
    let first_reservation = sc.get_reservation(&first_old_domain_name).unwrap();
    assert_eq!(first_reservation.domain_name, first_old_domain_name);
    assert_eq!(first_reservation.until, first_old_domain_until);
    assert_eq!(first_reservation.reserved_for, FIRST_USER);
    let second_reservation = sc.get_reservation(&second_old_domain_name).unwrap();
    assert_eq!(second_reservation.domain_name, second_old_domain_name);
    assert_eq!(second_reservation.until, second_old_domain_until);
    assert_eq!(second_reservation.reserved_for, SECOND_USER);
}

#[test]
fn clear_reservations() {
    let mut sc = setup_contract();
    let block_timestamp: u64 = 1000;

    let first_old_domain_name = b"first.elrond".to_vec();
    let second_old_domain_name = b"second.elrond".to_vec();
    let first_old_domain_until = block_timestamp + 30 * 24 * 60 * 60; // 1 month
    let second_old_domain_until = block_timestamp + 2 * 30 * 24 * 60 * 60; // 2 month
    let reservations = vec![
        Reservation {
            domain_name: first_old_domain_name.clone(),
            until: first_old_domain_until,
            reserved_for: FIRST_USER,
        },
        Reservation {
            domain_name: second_old_domain_name.clone(),
            until: second_old_domain_until,
            reserved_for: SECOND_USER,
        },
    ];
    sc.set_reservations(OWNER, reservations).unwrap();
    let first_reservation = sc.get_reservation(&first_old_domain_name).unwrap();
    assert_eq!(first_reservation.domain_name, first_old_domain_name);
    assert_eq!(first_reservation.until, first_old_domain_until);
    assert_eq!(first_reservation.reserved_for, FIRST_USER);
    let second_reservation = sc.get_reservation(&second_old_domain_name).unwrap();
    assert_eq!(second_reservation.domain_name, second_old_domain_name);
    assert_eq!(second_reservation.until, second_old_domain_until);
    assert_eq!(second_reservation.reserved_for, SECOND_USER);

    // clear reservations
    sc.clear_reservations(
        OWNER,
        vec![first_old_domain_name.clone(), second_old_domain_name.clone()],
    )
    .unwrap();
    let empty_first_reservation = sc.get_reservation(&first_old_domain_name).is_none();
    assert_eq!(empty_first_reservation, true);
    let empty_second_reservation = sc.get_reservation(&second_old_domain_name).is_none();
    assert_eq!(empty_second_reservation, true);
}

#[test]
fn migrate() {
    let mut sc = setup_contract();
    let block_timestamp: u64 = 1000;

    let first_old_domain_name = b"first.elrond".to_vec();
    let second_old_domain_name = b"second.elrond".to_vec();
    let first_old_domain_until = block_timestamp + 30 * 24 * 60 * 60; // 1 month
    let second_old_domain_until = block_timestamp + 2 * 30 * 24 * 60 * 60; // 2 month
    let reservations = vec![
        Reservation {
            domain_name: first_old_domain_name.clone(),
            until: first_old_domain_until,
            reserved_for: FIRST_USER,
        },
        Reservation {
            domain_name: second_old_domain_name.clone(),
            until: second_old_domain_until,
            reserved_for: SECOND_USER,
        },
    ];
    sc.set_reservations(OWNER, reservations).unwrap();
    let first_reservation = sc.get_reservation(&first_old_domain_name).unwrap();
    assert_eq!(first_reservation.domain_name, first_old_domain_name);
    assert_eq!(first_reservation.until, first_old_domain_until);
    assert_eq!(first_reservation.reserved_for, FIRST_USER);
    let second_reservation = sc.get_reservation(&second_old_domain_name).unwrap();
    assert_eq!(second_reservation.domain_name, second_old_domain_name);
    assert_eq!(second_reservation.until, second_old_domain_until);
    assert_eq!(second_reservation.reserved_for, SECOND_USER);

    // migrate first domain
    issue_token(&mut sc);
    let first_new_domain_name = b"first.mvx".to_vec();
    sc.migrate_domain(FIRST_USER, block_timestamp, &first_old_domain_name)
        .unwrap();
    let exist_new_domain = sc.get_domain(&first_new_domain_name).is_some();
    assert_eq!(exist_new_domain, true);
    let new_domain = sc.get_domain(&first_new_domain_name).unwrap();
    assert_eq!(new_domain.name.eq(&first_new_domain_name), true);
    assert_eq!(new_domain.expires_at, first_old_domain_until);
}
