use router_sc::Payment;
use router_sc::Router;
use router_sc::RouterError;

const OWNER: u64 = 1;
const MINTER: u64 = 2;

const ECITY_TOKEN_ID: &[u8] = b"ECITY-123456";

fn configured_router(shares: &[(u64, u64)]) -> Router {
    let mut r = Router::init(OWNER);
    assert_eq!(r.set_token(OWNER, ECITY_TOKEN_ID.to_vec()), Ok(()));
    assert_eq!(r.set_minter_address(OWNER, MINTER), Ok(()));
    for &(address, percentage) in shares {
        assert_eq!(r.add_distribution(OWNER, address, percentage), Ok(()));
    }
    r
}

#[test]
fn set_all_and_distribute_test() {
    let user_a: u64 = 20;
    let user_b: u64 = 21;
    // 50% for user_a, 50% for user_b, then distribute 1000 tokens
    let r = configured_router(&[(user_a, 5000), (user_b, 5000)]);
    let payments = r
        .distribute(MINTER, &ECITY_TOKEN_ID.to_vec(), 1000)
        .unwrap();
    assert_eq!(
        payments,
        vec![
            Payment { beneficiary: user_a, amount: 500, routed: false },
            Payment { beneficiary: user_b, amount: 500, routed: false },
        ]
    );
    // the contract keeps nothing
    let paid: u128 = payments.iter().map(|p| p.amount).sum();
    assert_eq!(1000 - paid, 0);
}

#[test]
fn distribute_requires_the_minter() {
    let r = configured_router(&[(20, 10000)]);
    let err = r.distribute(OWNER, &ECITY_TOKEN_ID.to_vec(), 1000);
    assert_eq!(err, Err(RouterError::UnauthorizedCaller));
    assert_eq!(
        err.unwrap_err().message(),
        "Only the minter can call this function"
    );
}

#[test]
fn distribute_without_minter_configured_fails() {
    let mut r = Router::init(OWNER);
    assert_eq!(r.set_token(OWNER, ECITY_TOKEN_ID.to_vec()), Ok(()));
    assert_eq!(r.add_distribution(OWNER, 20, 10000), Ok(()));
    assert_eq!(
        r.distribute(OWNER, &ECITY_TOKEN_ID.to_vec(), 1000),
        Err(RouterError::UnauthorizedCaller)
    );
}

#[test]
fn distribute_requires_the_full_allocation() {
    // 50% allocated in total: valid for configuration, unusable for payout
    let r = configured_router(&[(20, 5000)]);
    let err = r.distribute(MINTER, &ECITY_TOKEN_ID.to_vec(), 1000);
    assert_eq!(err, Err(RouterError::IncompleteDistribution));
    assert_eq!(err.unwrap_err().message(), "Total percentage must be 10000");

    // an empty ledger is under-allocated too
    let empty = configured_router(&[]);
    assert_eq!(
        empty.distribute(MINTER, &ECITY_TOKEN_ID.to_vec(), 1000),
        Err(RouterError::IncompleteDistribution)
    );
}

#[test]
fn distribute_requires_the_configured_token() {
    let r = configured_router(&[(20, 10000)]);
    let err = r.distribute(MINTER, &b"OTHER-123456".to_vec(), 1000);
    assert_eq!(err, Err(RouterError::WrongTokenError));
    assert_eq!(err.unwrap_err().message(), "Invalid token");
}

#[test]
fn distribute_with_no_token_configured_fails() {
    let mut r = Router::init(OWNER);
    assert_eq!(r.set_minter_address(OWNER, MINTER), Ok(()));
    assert_eq!(r.add_distribution(OWNER, 20, 10000), Ok(()));
    assert_eq!(
        r.distribute(MINTER, &ECITY_TOKEN_ID.to_vec(), 1000),
        Err(RouterError::WrongTokenError)
    );
}

#[test]
fn game_share_is_routed_others_are_direct() {
    let game: u64 = 40;
    let user_b: u64 = 21;
    let mut r = configured_router(&[(game, 6000), (user_b, 4000)]);
    assert_eq!(r.set_game_address(OWNER, game), Ok(()));
    let payments = r
        .distribute(MINTER, &ECITY_TOKEN_ID.to_vec(), 1000)
        .unwrap();
    assert_eq!(
        payments,
        vec![
            Payment { beneficiary: game, amount: 600, routed: true },
            Payment { beneficiary: user_b, amount: 400, routed: false },
        ]
    );
}

#[test]
fn rounding_dust_stays_below_entry_count() {
    let r = configured_router(&[(20, 3333), (21, 3333), (22, 3334)]);
    let payments = r
        .distribute(MINTER, &ECITY_TOKEN_ID.to_vec(), 1000)
        .unwrap();
    // floor(1000 * 3333 / 10000) = 333, floor(1000 * 3334 / 10000) = 333
    assert_eq!(
        payments.iter().map(|p| p.amount).collect::<Vec<u128>>(),
        vec![333, 333, 333]
    );
    let paid: u128 = payments.iter().map(|p| p.amount).sum();
    assert!(paid <= 1000);
    assert_eq!(1000 - paid, 1);
    assert!(1000 - paid <= payments.len() as u128 - 1);
}

#[test]
fn whole_balance_is_swept_not_just_the_payment() {
    // residual dust from an earlier payout is part of the next balance
    let r = configured_router(&[(20, 5000), (21, 5000)]);
    let payments = r
        .distribute(MINTER, &ECITY_TOKEN_ID.to_vec(), 1001)
        .unwrap();
    assert_eq!(
        payments.iter().map(|p| p.amount).collect::<Vec<u128>>(),
        vec![500, 500]
    );
}

#[test]
fn large_balances_lose_no_precision() {
    // hundreds of billions of the smallest token unit
    let balance: u128 = 300_000_000_000_000_000_000_000_000_000;
    let r = configured_router(&[(20, 1), (21, 9999)]);
    let payments = r
        .distribute(MINTER, &ECITY_TOKEN_ID.to_vec(), balance)
        .unwrap();
    assert_eq!(payments[0].amount, balance / 10000);
    assert_eq!(payments[1].amount, balance / 10000 * 9999);
    let paid: u128 = payments.iter().map(|p| p.amount).sum();
    assert!(paid <= balance);
    assert!(balance - paid <= 1);
}
