use pallet_bets::{AccountId, DispatchError, Error, MatchId, Odds, Origin, Pallet, Prediction, Randomness};

/// The account numbered `acc_num`.
fn acc_pub(acc_num: u8) -> AccountId {
    acc_num as AccountId
}

/// Five accounts with 100 each.
fn new_test_ext() -> Pallet {
    let endowed = vec![
        (acc_pub(1), 100),
        (acc_pub(2), 100),
        (acc_pub(3), 100),
        (acc_pub(4), 100),
        (acc_pub(5), 100),
    ];
    Pallet::new(*b"py/bbets", &endowed)
}

/// A deterministic stand-in for the chain's randomness: a hash of the subject.
struct TestRandomness;

impl Randomness for TestRandomness {
    fn random(&self, subject: &[u8]) -> [u8; 32] {
        let mut out = [0u8; 32];
        let mut h: u64 = 0xcbf29ce484222325;
        for (i, slot) in out.iter_mut().enumerate() {
            for b in subject {
                h ^= *b as u64;
                h = h.wrapping_mul(0x100000001b3);
            }
            h ^= i as u64;
            *slot = (h >> 24) as u8;
        }
        out
    }
}

/// Asserts that `r` is the error `e` and that the observable state did not change.
fn assert_noop(bets: &mut Pallet, e: DispatchError, f: impl FnOnce(&mut Pallet) -> Result<(), DispatchError>) {
    let count = bets.bets_count();
    let events = bets.events().len();
    let funds: Vec<(u64, u64)> = (1..=5u8)
        .map(|a| (bets.balances().free_balance(acc_pub(a)), bets.balances().reserved_balance(acc_pub(a))))
        .collect();
    assert_eq!(f(bets), Err(e));
    assert_eq!(bets.bets_count(), count);
    assert_eq!(bets.events().len(), events);
    let after: Vec<(u64, u64)> = (1..=5u8)
        .map(|a| (bets.balances().free_balance(acc_pub(a)), bets.balances().reserved_balance(acc_pub(a))))
        .collect();
    assert_eq!(after, funds);
}

#[test]
fn initial_state() {
    let bets = new_test_ext();
    assert_eq!(bets.balances().free_balance(acc_pub(1)), 100);
    assert_eq!(bets.balances().free_balance(acc_pub(2)), 100);
    assert_eq!(bets.balances().free_balance(acc_pub(3)), 100);
    assert_eq!(bets.balances().free_balance(acc_pub(4)), 100);
    assert_eq!(bets.balances().free_balance(acc_pub(5)), 100);
}

#[test]
fn end_to_end_three_bets_works() {
    let mut bets = new_test_ext();
    let id_match: MatchId = (1, 23);
    let odds = Odds { homewin: (2, 00), awaywin: (2, 00), draw: (2, 00), under: (2, 00), over: (2, 00) };
    assert_eq!(bets.balances().total_issuance(), 500);
    assert_eq!(bets.set_odds(Origin::Signed(acc_pub(1)), id_match, odds), Ok(()));
    assert_eq!(bets.matches(id_match).is_some(), true);
    assert_eq!(bets.place_bet(Origin::Signed(acc_pub(2)), id_match, acc_pub(1), Prediction::Homewin, 20), Ok(()));
    assert_eq!(bets.bets_count(), 1);
    assert_eq!(bets.place_bet(Origin::Signed(acc_pub(3)), id_match, acc_pub(1), Prediction::Draw, 20), Ok(()));
    assert_eq!(bets.bets_count(), 2);
    assert_noop(
        &mut bets,
        DispatchError::Module(Error::OddsAccountInsufficientBalance),
        |b| b.place_bet(Origin::Signed(acc_pub(4)), id_match, acc_pub(1), Prediction::Draw, 30),
    );
    assert_eq!(bets.bets_count(), 2);
    assert_eq!(bets.place_bet(Origin::Signed(acc_pub(4)), id_match, acc_pub(1), Prediction::Awaywin, 10), Ok(()));
    assert_eq!(bets.bets_count(), 3);
    assert_eq!(bets.balances().free_balance(acc_pub(1)), 0);
    assert_eq!(bets.set_random_match_result(Origin::Signed(acc_pub(5)), id_match, &TestRandomness), Ok(()));
    assert_eq!(bets.settle_bet(Origin::Signed(acc_pub(5)), 0), Ok(()));
    assert_eq!(bets.settle_bet(Origin::Signed(acc_pub(5)), 1), Ok(()));
    assert_eq!(bets.settle_bet(Origin::Signed(acc_pub(5)), 2), Ok(()));
    assert_eq!(bets.balances().free_balance(acc_pub(1)) > 100, true);
    assert_eq!(
        bets.balances().free_balance(acc_pub(2))
            + bets.balances().free_balance(acc_pub(3))
            + bets.balances().free_balance(acc_pub(4))
            < 300,
        true
    );
}
