use pallet_bets::balances::Balances;
use pallet_bets::offchain::{
    convert_moment_to_u64_in_milliseconds, is_utf8, parse_timestamp_body, timestamp_bounds, timestamp_from_body,
    TimestampBody,
};
use pallet_bets::payout::{bet_outcome, winnable_amount};
use pallet_bets::price::{parse_price, price_cents, price_from_document, JsonDocument, JsonField};
use pallet_bets::random::{generate_random_number, generate_random_score, score_from_draws};
use pallet_bets::types::{BalanceStatus, BalancesError};
use pallet_bets::{
    AccountId, BetStatus, Call, DispatchError, Error, Event, MatchId, MatchStatus, Odds, Origin,
    Pallet, Prediction, Randomness,
};

const ID: [u8; 8] = *b"py/bbets";

fn acc(n: u8) -> AccountId {
    n as AccountId
}

fn five_accounts() -> Pallet {
    let endowed: Vec<(AccountId, u64)> = (1..=5u8).map(|n| (acc(n), 100)).collect();
    Pallet::new(ID, &endowed)
}

fn odds(int: u32, frac: u8) -> Odds {
    Odds { homewin: (int, frac), awaywin: (int, frac), draw: (int, frac), under: (int, frac), over: (int, frac) }
}

fn signed(n: u8) -> Origin {
    Origin::Signed(acc(n))
}

fn funds(p: &Pallet, n: u8) -> (u64, u64) {
    (p.balances().free_balance(acc(n)), p.balances().reserved_balance(acc(n)))
}

fn total(p: &Pallet) -> u64 {
    (1..=5u8).map(|n| funds(p, n).0 + funds(p, n).1).sum()
}

/// The first four bytes of the hash are always `self.0`.
struct FixedRandomness(u32);

impl Randomness for FixedRandomness {
    fn random(&self, _subject: &[u8]) -> [u8; 32] {
        let mut out = [0u8; 32];
        out[..4].copy_from_slice(&self.0.to_le_bytes());
        out
    }
}

/// The hash is the subject, padded with zeros.
struct EchoRandomness;

impl Randomness for EchoRandomness {
    fn random(&self, subject: &[u8]) -> [u8; 32] {
        let mut out = [0u8; 32];
        for (i, b) in subject.iter().take(32).enumerate() {
            out[i] = *b;
        }
        out
    }
}

/// The first four bytes of the hash are those of the number that `self.0`
/// gives for the seed, the last four bytes of the subject.
struct SeededRandomness(fn(u32) -> u32);

impl Randomness for SeededRandomness {
    fn random(&self, subject: &[u8]) -> [u8; 32] {
        let seed = u32::from_le_bytes([subject[8], subject[9], subject[10], subject[11]]);
        let mut out = [0u8; 32];
        out[..4].copy_from_slice(&(self.0)(seed).to_le_bytes());
        out
    }
}

const M: MatchId = (1, 23);

#[test]
fn unsigned_calls_are_refused() {
    let mut p = five_accounts();
    assert_eq!(p.set_odds(Origin::Unsigned, M, odds(2, 0)), Err(DispatchError::BadOrigin));
    assert_eq!(p.set_odds(Origin::Root, M, odds(2, 0)), Err(DispatchError::BadOrigin));
    assert_eq!(p.settle_bet(Origin::Unsigned, 0), Err(DispatchError::BadOrigin));
    assert!(p.matches(M).is_none());
    assert!(p.events().is_empty());
}

#[test]
fn set_odds_checks_the_odds() {
    let mut p = five_accounts();
    let mut o = odds(2, 0);
    o.draw = (2, 100);
    assert_eq!(p.set_odds(signed(1), M, o), Err(DispatchError::Module(Error::OddFracPartOutOfBound)));
    let mut o = odds(2, 99);
    o.over = (0, 50);
    assert_eq!(p.set_odds(signed(1), M, o), Err(DispatchError::Module(Error::OddIntPartOutOfBound)));
    assert!(p.matches(M).is_none());
    assert_eq!(p.set_odds(signed(1), M, odds(1, 99)), Ok(()));
}

#[test]
fn set_odds_creates_an_open_match_once() {
    let mut p = five_accounts();
    assert_eq!(p.set_odds(signed(1), M, odds(2, 0)), Ok(()));
    let m = p.matches(M).unwrap();
    assert_eq!(m.status, MatchStatus::Open);
    assert_eq!((m.home_score, m.away_score, m.timestamp_start), (0, 0, 0));
    assert_eq!(p.set_odds(signed(2), M, odds(3, 10)), Ok(()));
    assert_eq!(p.set_odds(signed(1), M, odds(4, 20)), Ok(()));
    assert_eq!(p.odds((M, acc(1))), Some(odds(4, 20)));
    assert_eq!(p.odds((M, acc(2))), Some(odds(3, 10)));
    assert_eq!(
        p.events().clone(),
        vec![
            Event::MatchCreated(M),
            Event::OddsCreated((M, acc(1))),
            Event::OddsCreated((M, acc(2))),
            Event::OddsCreated((M, acc(1))),
        ]
    );
    assert!(p.locked_matches().is_empty());
}

#[test]
fn set_match_start_needs_a_locked_match() {
    let mut p = five_accounts();
    assert_eq!(p.set_match_start(signed(1), M, 5), Err(DispatchError::Module(Error::MatchNotExists)));
    p.set_odds(signed(1), M, odds(2, 0)).unwrap();
    assert_eq!(p.set_match_start(signed(1), M, 5), Err(DispatchError::Module(Error::MatchNotLocked)));
}

#[test]
fn place_bet_errors() {
    let mut p = five_accounts();
    assert_eq!(
        p.place_bet(signed(2), M, acc(1), Prediction::Homewin, 10),
        Err(DispatchError::Module(Error::OddsNotExist))
    );
    p.set_odds(signed(1), M, odds(2, 0)).unwrap();
    assert_eq!(
        p.place_bet(signed(1), M, acc(1), Prediction::Homewin, 10),
        Err(DispatchError::Module(Error::SameMatchOwner))
    );
    assert_eq!(
        p.place_bet(signed(2), M, acc(1), Prediction::Homewin, 101),
        Err(DispatchError::Module(Error::BetAccountInsufficientBalance))
    );
    assert_eq!(
        p.place_bet(signed(2), M, acc(1), Prediction::Homewin, 51),
        Err(DispatchError::Module(Error::OddsAccountInsufficientBalance))
    );
    p.set_match_result(signed(5), M, 1, 0).unwrap();
    assert_eq!(
        p.place_bet(signed(2), M, acc(1), Prediction::Homewin, 10),
        Err(DispatchError::Module(Error::MatchClosed))
    );
    assert_eq!(p.bets_count(), 0);
    assert_eq!(funds(&p, 1), (100, 0));
    assert_eq!(funds(&p, 2), (100, 0));
}

#[test]
fn place_bet_reserves_both_stakes() {
    let mut p = five_accounts();
    p.set_odds(signed(1), M, Odds { homewin: (2, 50), awaywin: (3, 0), draw: (4, 0), under: (1, 10), over: (1, 20) }).unwrap();
    assert_eq!(p.place_bet(signed(2), M, acc(1), Prediction::Homewin, 10), Ok(()));
    assert_eq!(funds(&p, 2), (90, 10));
    assert_eq!(funds(&p, 1), (75, 25));
    assert_eq!(funds(&p, 3), (100, 0));
    let bet = p.bets(0).unwrap();
    assert_eq!(bet.owner, acc(2));
    assert_eq!(bet.id_odds, (M, acc(1)));
    assert_eq!(bet.odd, (2, 50));
    assert_eq!(bet.amount, 10);
    assert_eq!(bet.status, BetStatus::Open);
    assert_eq!(p.bets_count(), 1);
    assert_eq!(p.events().last(), Some(&Event::BetPlaced(0)));
    assert!(p.bets(1).is_none());
    assert_eq!(total(&p), 500);
}

#[test]
fn set_match_result_errors() {
    let mut p = five_accounts();
    assert_eq!(p.set_match_result(signed(5), M, 1, 0), Err(DispatchError::Module(Error::MatchNotExists)));
    p.set_odds(signed(1), M, odds(2, 0)).unwrap();
    assert_eq!(p.set_match_result(signed(5), M, 2, 1), Ok(()));
    assert_eq!(p.set_match_result(signed(5), M, 0, 0), Err(DispatchError::Module(Error::MatchClosed)));
    let m = p.matches(M).unwrap();
    assert_eq!((m.status, m.home_score, m.away_score), (MatchStatus::Closed, 2, 1));
}

#[test]
fn settle_bet_pays_a_won_bet() {
    let mut p = five_accounts();
    p.set_odds(signed(1), M, odds(2, 50)).unwrap();
    p.place_bet(signed(2), M, acc(1), Prediction::Homewin, 10).unwrap();
    assert_eq!(p.settle_bet(signed(5), 0), Err(DispatchError::Module(Error::MatchOpen)));
    assert_eq!(p.settle_bet(signed(5), 1), Err(DispatchError::Module(Error::BetNotExists)));
    p.set_match_result(signed(5), M, 2, 1).unwrap();
    assert_eq!(p.settle_bet(signed(5), 0), Ok(()));
    // The bettor receives the winnable amount; the stake goes to the bookmaker.
    assert_eq!(funds(&p, 2), (115, 0));
    assert_eq!(funds(&p, 1), (85, 0));
    assert_eq!(p.bets(0).unwrap().status, BetStatus::Won);
    assert_eq!(p.settle_bet(signed(5), 0), Err(DispatchError::Module(Error::BetSettled)));
    assert_eq!(total(&p), 500);
}

#[test]
fn a_run_of_calls_keeps_the_bets_as_placed() {
    let mut p = five_accounts();
    p.set_odds(signed(1), M, odds(2, 50)).unwrap();
    p.place_bet(signed(2), M, acc(1), Prediction::Homewin, 10).unwrap();
    // New odds do not change the odd of the bet already placed, nor the match.
    assert_eq!(p.set_odds(signed(1), M, odds(5, 0)), Ok(()));
    assert_eq!(p.odds((M, acc(1))), Some(odds(5, 0)));
    assert_eq!(p.bets(0).unwrap().odd, (2, 50));
    assert_eq!(p.matches(M).unwrap().status, MatchStatus::Open);
    // Once closed, the match takes no bets, and the refusal changes nothing.
    p.set_random_match_result(signed(3), M, &SeededRandomness(|seed| seed)).unwrap();
    let before = (funds(&p, 2), funds(&p, 1), p.bets_count());
    assert_eq!(
        p.place_bet(signed(2), M, acc(1), Prediction::Awaywin, 1),
        Err(DispatchError::Module(Error::MatchClosed))
    );
    assert_eq!((funds(&p, 2), funds(&p, 1), p.bets_count()), before);
    // Scores 0 and 1: the home win bet is lost, at the odd it was placed at.
    assert_eq!(p.settle_bet(signed(4), 0), Ok(()));
    assert_eq!(funds(&p, 2), (90, 0));
    assert_eq!(funds(&p, 1), (110, 0));
    // It pays out once.
    assert_eq!(p.settle_bet(signed(2), 0), Err(DispatchError::Module(Error::BetSettled)));
    assert_eq!(funds(&p, 2), (90, 0));
    assert_eq!(p.bets(0).unwrap().status, BetStatus::Lost);
    assert_eq!(total(&p), 500);
    assert_eq!(p.balances().total_issuance(), total(&p));
}

#[test]
fn settle_bet_pays_a_lost_bet() {
    let mut p = five_accounts();
    p.set_odds(signed(1), M, odds(2, 50)).unwrap();
    p.place_bet(signed(2), M, acc(1), Prediction::Draw, 10).unwrap();
    p.set_match_result(signed(5), M, 2, 1).unwrap();
    assert_eq!(p.settle_bet(signed(5), 0), Ok(()));
    assert_eq!(funds(&p, 2), (90, 0));
    assert_eq!(funds(&p, 1), (110, 0));
    assert_eq!(p.bets(0).unwrap().status, BetStatus::Lost);
    assert_eq!(total(&p), 500);
}

#[test]
fn over_and_under_count_the_goals() {
    assert_eq!(bet_outcome(Prediction::Over, 2, 2), BetStatus::Won);
    assert_eq!(bet_outcome(Prediction::Over, 2, 1), BetStatus::Lost);
    assert_eq!(bet_outcome(Prediction::Under, 1, 1), BetStatus::Won);
    assert_eq!(bet_outcome(Prediction::Under, 2, 1), BetStatus::Lost);
    assert_eq!(bet_outcome(Prediction::Draw, 3, 3), BetStatus::Won);
    assert_eq!(bet_outcome(Prediction::Awaywin, 0, 1), BetStatus::Won);
    assert_eq!(bet_outcome(Prediction::Homewin, 0, 1), BetStatus::Lost);
}

#[test]
fn winnable_amount_rounds_to_nearest_cent() {
    assert_eq!(winnable_amount((2, 50), 10), 25);
    assert_eq!(winnable_amount((2, 0), 20), 40);
    // 55% of 1 is 0.55, which rounds up; 50% of 1 is a half, which rounds down.
    assert_eq!(winnable_amount((1, 55), 1), 2);
    assert_eq!(winnable_amount((1, 50), 1), 1);
    assert_eq!(winnable_amount((1, 51), 1), 2);
    assert_eq!(winnable_amount((3, 33), 100), 333);
    assert_eq!(winnable_amount((u32::MAX, 0), u64::MAX), u64::MAX);
}

#[test]
fn random_scores_are_below_nine() {
    let mut p = five_accounts();
    p.set_odds(signed(1), M, odds(2, 0)).unwrap();
    assert_eq!(p.set_random_match_result(signed(5), M, &FixedRandomness(20)), Ok(()));
    let m = p.matches(M).unwrap();
    assert_eq!((m.status, m.home_score, m.away_score), (MatchStatus::Closed, 2, 2));
    assert_eq!(
        p.set_random_match_result(signed(5), M, &FixedRandomness(20)),
        Err(DispatchError::Module(Error::MatchClosed))
    );
    // A number at or above the unbiased bound is drawn again, up to ten times.
    assert_eq!(generate_random_score(&FixedRandomness(u32::MAX), ID, 0), 3);
    assert_eq!(generate_random_score(&FixedRandomness(17), ID, 1), 8);
}

#[test]
fn random_score_keeps_the_first_unbiased_draw() {
    // The first draw equals the bound and is drawn again; the second gives 10 % 9.
    let first_rejected = SeededRandomness(|seed| if seed == 0 { 4294967292 } else { 10 });
    assert_eq!(generate_random_score(&first_rejected, ID, 0), 1);
    // Draws follow the seeds from `seed_diff` on.
    let by_seed = SeededRandomness(|seed| if seed < 105 { u32::MAX } else { seed });
    assert_eq!(generate_random_score(&by_seed, ID, 100), 105 % 9);
    // After ten biased draws the tenth is kept.
    let always_biased = SeededRandomness(|seed| u32::MAX - (seed % 3));
    assert_eq!(generate_random_score(&always_biased, ID, 0), (u32::MAX - 0) % 9);
    // The highest seed whose ten draws stay within a `u32`.
    let high = SeededRandomness(|seed| if seed == u32::MAX { 14 } else { u32::MAX });
    assert_eq!(generate_random_score(&high, ID, u32::MAX - 9), 5);
    assert_eq!(score_from_draws(&vec![4294967292, 10]), 1);
    assert_eq!(score_from_draws(&vec![4294967291]), 8);
    assert_eq!(score_from_draws(&vec![u32::MAX; 12]), u32::MAX % 9);
    assert_eq!(score_from_draws(&vec![u32::MAX, 20, 30]), 2);
}

#[test]
fn random_result_draws_home_with_seed_zero_and_away_with_seed_one() {
    let mut p = five_accounts();
    p.set_odds(signed(1), M, odds(2, 0)).unwrap();
    let r = SeededRandomness(|seed| seed + 3);
    assert_eq!(p.set_random_match_result(signed(2), M, &r), Ok(()));
    let m = p.matches(M).unwrap();
    assert_eq!((m.status, m.home_score, m.away_score), (MatchStatus::Closed, 3, 4));
}

#[test]
fn random_number_is_read_from_the_hash_of_the_subject() {
    // The subject is the pallet id followed by the seed; its first four bytes are read back.
    assert_eq!(generate_random_number(&EchoRandomness, ID, 7), u32::from_le_bytes(*b"py/b"));
    assert_eq!(generate_random_number(&EchoRandomness, [0; 8], 7), 0);
    assert_eq!(generate_random_number(&FixedRandomness(12345), ID, 0), 12345);
}

#[test]
fn dispatch_makes_the_call() {
    let mut p = five_accounts();
    assert_eq!(p.dispatch(signed(1), Call::SetOdds { id_match: M, odds: odds(2, 0) }, &FixedRandomness(0)), Ok(()));
    assert_eq!(
        p.dispatch(
            signed(2),
            Call::PlaceBet { id_match: M, odds_owner: acc(1), prediction: Prediction::Under, amount: 5 },
            &FixedRandomness(0)
        ),
        Ok(())
    );
    assert_eq!(p.dispatch(signed(3), Call::SetRandomMatchResult { id_match: M }, &FixedRandomness(0)), Ok(()));
    assert_eq!(p.dispatch(signed(3), Call::SettleBet { id_bet: 0 }, &FixedRandomness(0)), Ok(()));
    assert_eq!(p.bets(0).unwrap().status, BetStatus::Won);
    assert_eq!(funds(&p, 2), (105, 0));
    assert_eq!(
        p.dispatch(signed(3), Call::SetMatchStart { id_match: M, timestamp_start: 1 }, &FixedRandomness(0)),
        Err(DispatchError::Module(Error::MatchNotLocked))
    );
}

#[test]
fn balances_reserve_and_transfer() {
    let mut b = Balances::new(&vec![(1, 50), (2, 30)]);
    assert_eq!(b.total_issuance(), 80);
    assert!(b.can_reserve(1, 50));
    assert!(!b.can_reserve(1, 51));
    assert_eq!(b.reserve(1, 51), Err(DispatchError::Balances(BalancesError::InsufficientBalance)));
    assert_eq!(b.reserve(1, 20), Ok(()));
    assert_eq!((b.free_balance(1), b.reserved_balance(1)), (30, 20));
    assert_eq!(b.unreserve(1, 25), 5);
    assert_eq!((b.free_balance(1), b.reserved_balance(1)), (50, 0));
    b.reserve(1, 10).unwrap();
    assert_eq!(b.repatriate_reserved(1, 9, 5, BalanceStatus::Free), Err(DispatchError::Balances(BalancesError::DeadAccount)));
    assert_eq!(b.repatriate_reserved(1, 2, 15, BalanceStatus::Free), Ok(5));
    assert_eq!((b.free_balance(2), b.reserved_balance(2)), (40, 0));
    assert_eq!((b.free_balance(1), b.reserved_balance(1)), (40, 0));
    b.reserve(2, 10).unwrap();
    assert_eq!(b.repatriate_reserved(2, 1, 4, BalanceStatus::Reserved), Ok(0));
    assert_eq!((b.free_balance(1), b.reserved_balance(1)), (40, 4));
    assert_eq!(b.reserved_balance(2), 6);
    assert_eq!(b.free_balance(9), 0);
    assert_eq!(b.total_issuance(), 80);
}

#[test]
fn moment_conversion_and_bounds() {
    assert_eq!(convert_moment_to_u64_in_milliseconds(42), Ok(42));
    assert_eq!(convert_moment_to_u64_in_milliseconds(u64::MAX as u128 + 1), Err(DispatchError::Other));
    assert_eq!(timestamp_bounds(1_000), (1_000, 601_000));
    assert_eq!(timestamp_bounds(u64::MAX as u128), (u64::MAX, 0));
    assert_eq!(timestamp_bounds(u128::MAX), (0, 600_000));
}

#[test]
fn timestamp_body_is_a_bracketed_number() {
    assert_eq!(parse_timestamp_body("[1666000000000]"), Some(1_666_000_000_000));
    assert_eq!(parse_timestamp_body("42"), Some(42));
    assert_eq!(parse_timestamp_body("[+7]"), Some(7));
    assert_eq!(parse_timestamp_body("[18446744073709551615]"), Some(u64::MAX));
    assert_eq!(parse_timestamp_body("[18446744073709551616]"), None);
    assert_eq!(parse_timestamp_body("[]"), None);
    assert_eq!(parse_timestamp_body("[1, 2]"), None);
    assert_eq!(parse_timestamp_body("[-1]"), None);
    assert_eq!(parse_timestamp_body("+"), None);
}

#[test]
fn timestamp_body_must_be_utf8() {
    assert_eq!(timestamp_from_body(b"[1666000000000]"), TimestampBody::Timestamp(1_666_000_000_000));
    assert_eq!(timestamp_from_body(b"[1, 2]"), TimestampBody::NotANumber);
    assert_eq!(timestamp_from_body(&[b'[', 0xff, b']']), TimestampBody::NotUtf8);
    assert_eq!(timestamp_from_body("[\u{e9}]".as_bytes()), TimestampBody::NotANumber);
    assert!(is_utf8("a\u{e9}\u{20ac}\u{1f600}".as_bytes()));
    assert!(is_utf8(b""));
    // A lone continuation byte, a cut-short sequence, an overlong encoding, a surrogate, beyond U+10FFFF.
    assert!(!is_utf8(&[0x80]));
    assert!(!is_utf8(&[0xe2, 0x82]));
    assert!(!is_utf8(&[0xc0, 0xaf]));
    assert!(!is_utf8(&[0xed, 0xa0, 0x80]));
    assert!(!is_utf8(&[0xf4, 0x90, 0x80, 0x80]));
    assert!(is_utf8(&[0xf4, 0x8f, 0xbf, 0xbf]));
}

#[test]
fn price_is_read_in_cents() {
    assert_eq!(parse_price(r#"{"USD": 6536.92}"#), Some(653692));
    assert_eq!(parse_price(r#"{"EUR": 1.5, "USD": 123.4567}"#), Some(12345));
    assert_eq!(parse_price(r#"{"USD": 7}"#), Some(700));
    assert_eq!(parse_price(r#"{"USD": 1.5}"#), Some(150));
    assert_eq!(parse_price(r#"{"EUR": 1.5}"#), None);
    assert_eq!(parse_price(r#"{"USD": "1.5"}"#), None);
    assert_eq!(parse_price(r#"[1.5]"#), None);
    assert_eq!(parse_price(r#"not json"#), None);
    // A price beyond a `u32` of cents is refused.
    assert_eq!(parse_price(r#"{"USD": 50000000}"#), None);
    assert_eq!(parse_price(r#"{"USD": 4294967296}"#), None);
    // Long runs of digits elsewhere are read as the parser reads them.
    assert_eq!(parse_price(r#"{"USD": 1, "id": 12345678901}"#), Some(100));
    assert_eq!(parse_price(r#"{"note": "0123456789012345678901234", "USD": 2.25}"#), Some(225));
    // Fraction digits beyond the cents are dropped, however many.
    assert_eq!(parse_price(r#"{"USD": 3.0000000000000000000000001}"#), Some(300));
    // The first `USD` entry decides.
    assert_eq!(parse_price(r#"{"USD": "x", "USD": 1}"#), None);
}

#[test]
fn price_is_read_from_a_parsed_document() {
    let entries = vec![
        (vec!['E', 'U', 'R'], JsonField::Number((9, 0, 0))),
        (vec!['U', 'S', 'D'], JsonField::Number((12, 3, 1))),
    ];
    assert_eq!(price_from_document(&Some(JsonDocument::Object(entries))), Some(1230));
    let not_a_number = vec![(vec!['U', 'S', 'D'], JsonField::Boolean)];
    assert_eq!(price_from_document(&Some(JsonDocument::Object(not_a_number))), None);
    assert_eq!(price_from_document(&Some(JsonDocument::Other(JsonField::Number((1, 0, 0))))), None);
    assert_eq!(price_from_document(&None), None);
    assert_eq!(price_cents((1, 5, 1)), Some(150));
    assert_eq!(price_cents((123, 4567, 4)), Some(12345));
    assert_eq!(price_cents((42949672, 96, 2)), None);
    assert_eq!(price_cents((42949672, 95, 2)), Some(u32::MAX));
}

#[test]
fn hash_gives_its_first_four_bytes() {
    let mut h = [0xffu8; 32];
    h[0] = 1;
    h[1] = 2;
    h[2] = 3;
    h[3] = 4;
    assert_eq!(pallet_bets::random::random_number_from_hash(&h), 0x04030201);
}
