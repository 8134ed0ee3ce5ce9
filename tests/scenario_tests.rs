use oracle::contract::Contract;
use oracle::data_request::{fee_within_limit, DataRequest, NewDataRequestArgs};
use oracle::error::OracleError;
use oracle::math::calc_product;
use oracle::resolution_window::{ResolutionWindow, WindowStakeResult};
use oracle::types::{
    AnswerNumberType, AnswerType, FeeStatus, OracleConfig, Outcome, ProposalStatus, Requestor,
    StakeDataRequestArgs,
};

fn name(s: &str) -> String {
    s.to_string()
}

fn answer(s: &str) -> Outcome {
    Outcome::Answer(AnswerType::String(s.to_string()))
}

fn config(validity_bond: u128, invoke: u128, fee_percentage: u16) -> OracleConfig {
    OracleConfig {
        gov: name("gov"),
        final_arbitrator: name("arbiter"),
        bond_token: name("token"),
        stake_token: name("token"),
        validity_bond,
        max_outcomes: 8,
        default_challenge_window_duration: 1000,
        min_initial_challenge_window_duration: 1000,
        final_arbitrator_invoke_amount: invoke,
        resolution_fee_percentage: fee_percentage,
    }
}

fn args() -> NewDataRequestArgs {
    NewDataRequestArgs {
        sources: Vec::new(),
        outcomes: None,
        settlement_time: 0,
        challenge_period: 1000,
        target_contract: name("target"),
    }
}

fn contract_with_request(validity_bond: u128, invoke: u128) -> Contract {
    let mut c = Contract::new(None, config(validity_bond, invoke, 0));
    c.dr_new(&name("token"), name("creator"), validity_bond, 0, args(), 0).unwrap();
    c
}

fn stake(c: &mut Contract, who: &str, amount: u128, outcome: Outcome) -> Result<u128, OracleError> {
    c.dr_stake(&name("token"), name(who), amount, StakeDataRequestArgs { id: 0, outcome }, 0)
}

#[test]
fn round_zero_exact_fill() {
    let mut c = contract_with_request(100, 10_000);
    assert_eq!(stake(&mut c, "x", 100, answer("a")), Ok(0));
    let d = &c.data_requests[0];
    assert!(d.resolution_windows[0].bonded_outcome.as_ref().unwrap() == &answer("a"));
    assert_eq!(d.resolution_windows[0].bond_size, 100);
    assert_eq!(d.resolution_windows.len(), 2);
    assert_eq!(d.resolution_windows[1].bond_size, 200);
    assert!(d.resolution_windows[1].bonded_outcome.is_none());
}

#[test]
fn overflow_refund() {
    let mut w = ResolutionWindow::new(0, 1, 200, 1000, 0);
    assert_eq!(w.stake(name("x"), answer("a"), 150), 0);
    assert!(w.bonded_outcome.is_none());
    assert_eq!(w.stake(name("y"), answer("a"), 100), 50);
    assert_eq!(w.outcome_stake(&answer("a")), 200);
    assert_eq!(w.user_stake(&name("y"), &answer("a")), 50);
    assert!(w.bonded_outcome.as_ref().unwrap() == &answer("a"));
}

#[test]
fn bonded_window_takes_no_more_stake() {
    let mut w = ResolutionWindow::new(0, 0, 100, 1000, 0);
    assert_eq!(w.stake(name("x"), answer("a"), 100), 0);
    assert_eq!(w.stake(name("y"), answer("b"), 100), 100);
    assert_eq!(w.outcome_stake(&answer("b")), 0);
    assert!(w.bonded_outcome.as_ref().unwrap() == &answer("a"));
}

#[test]
fn zero_stake_is_a_no_op() {
    let mut w = ResolutionWindow::new(0, 0, 100, 1000, 0);
    assert_eq!(w.stake(name("x"), answer("a"), 0), 0);
    assert_eq!(w.outcome_stake(&answer("a")), 0);
    assert!(w.bonded_outcome.is_none());
}

#[test]
fn final_arbitrator_takes_over() {
    let mut c = contract_with_request(100, 250);
    assert_eq!(stake(&mut c, "x", 100, answer("a")), Ok(0));
    assert_eq!(stake(&mut c, "y", 200, answer("b")), Ok(0));
    assert!(!c.data_requests[0].final_arbitrator_triggered);
    assert_eq!(c.data_requests[0].resolution_windows[2].bond_size, 400);
    assert_eq!(stake(&mut c, "z", 400, answer("a")), Ok(0));
    assert!(c.data_requests[0].final_arbitrator_triggered);
    assert_eq!(c.data_requests[0].resolution_windows.len(), 3);
    assert_eq!(c.dr_finalize(0, 1_000_000), Err(OracleError::FinalArbitratorTriggered));
    assert_eq!(
        c.dr_final_arbitrator_finalize(&name("x"), 0, answer("a")),
        Err(OracleError::NotFinalArbitrator)
    );
    assert_eq!(c.dr_final_arbitrator_finalize(&name("arbiter"), 0, answer("b")), Ok(0));
    assert!(c.data_requests[0].finalized_outcome.as_ref().unwrap() == &answer("b"));
    assert_eq!(
        c.dr_final_arbitrator_finalize(&name("arbiter"), 0, answer("a")),
        Err(OracleError::AlreadyFinalized)
    );
}

#[test]
fn final_arbitrator_not_invoked() {
    let mut c = contract_with_request(100, 250);
    assert_eq!(
        c.dr_final_arbitrator_finalize(&name("arbiter"), 0, answer("a")),
        Err(OracleError::FinalArbitratorNotTriggered)
    );
}

fn redistribution_request() -> Contract {
    let mut c = contract_with_request(200, 10_000);
    assert_eq!(stake(&mut c, "y", 200, answer("correct")), Ok(0));
    assert_eq!(stake(&mut c, "z", 400, answer("wrong")), Ok(0));
    assert_eq!(stake(&mut c, "x", 200, answer("correct")), Ok(0));
    assert_eq!(stake(&mut c, "w", 600, answer("correct")), Ok(0));
    assert_eq!(c.data_requests[0].resolution_windows[2].bond_size, 800);
    assert_eq!(c.dr_finalize(0, 1000), Ok(0));
    c
}

#[test]
fn losing_stake_redistribution() {
    let mut c = redistribution_request();
    assert_eq!(c.dr_claim(name("x"), 0), Ok(100));
    assert_eq!(c.dr_claim(name("w"), 0), Ok(300));
    assert_eq!(c.dr_claim(name("y"), 0), Ok(200));
    assert_eq!(c.dr_claim(name("z"), 0), Ok(0));
}

#[test]
fn claim_twice_pays_once() {
    let mut c = redistribution_request();
    assert_eq!(c.dr_claim(name("w"), 0), Ok(300));
    assert_eq!(c.dr_claim(name("w"), 0), Ok(0));
    assert_eq!(c.dr_claim(name("w"), 0), Ok(0));
    assert_eq!(c.dr_claim(name("x"), 0), Ok(100));
}

#[test]
fn claims_stay_within_what_was_lost_and_the_pool() {
    let mut c = redistribution_request();
    let mut total = 0;
    for who in ["x", "y", "z", "w", "nobody"] {
        total += c.dr_claim(name(who), 0).unwrap();
    }
    // the round-0 pool (200) plus the bond lost on "wrong" (400)
    assert!(total <= 600);
    assert_eq!(total, 600);
}

#[test]
fn claim_before_finalization_refused() {
    let mut c = contract_with_request(100, 10_000);
    assert_eq!(c.dr_claim(name("x"), 0), Err(OracleError::NotFinalized));
    assert_eq!(c.dr_claim(name("x"), 7), Err(OracleError::UnknownDataRequest));
}

#[test]
fn claim_for_results() {
    let mut w = ResolutionWindow::new(0, 1, 100, 1000, 0);
    assert!(matches!(w.claim_for(name("x"), &answer("a")), WindowStakeResult::NoResult));
    w.stake(name("x"), answer("a"), 60);
    w.stake(name("y"), answer("a"), 40);
    assert!(matches!(w.claim_for(name("x"), &answer("b")), WindowStakeResult::Incorrect(100)));
    match w.claim_for(name("x"), &answer("a")) {
        WindowStakeResult::Correct(c) => {
            assert_eq!(c.bonded_stake, 100);
            assert_eq!(c.user_stake, 60);
        },
        _ => panic!("expected a correct round"),
    }
    match w.claim_for(name("x"), &answer("a")) {
        WindowStakeResult::Correct(c) => assert_eq!(c.user_stake, 0),
        _ => panic!("expected a correct round"),
    }
    assert_eq!(w.user_stake(&name("y"), &answer("a")), 40);
}

#[test]
fn calc_product_values() {
    assert_eq!(calc_product(200, 400, 800), 100);
    assert_eq!(calc_product(7, 3, 2), 10);
    assert_eq!(calc_product(0, 5, 3), 0);
    assert_eq!(calc_product(u128::MAX, 3, 4), 3 * (u128::MAX / 4) + 2);
    assert_eq!(calc_product(u128::MAX, u128::MAX, u128::MAX), u128::MAX);
    assert_eq!(calc_product(1 << 100, 1 << 100, 1 << 90), 1 << 110);
}

#[test]
fn fee_arithmetic() {
    let mut d = DataRequest::new(name("creator"), 0, config(100, 10_000, 500), args(), 10_000);
    assert_eq!(d.calc_fee(), 500);
    assert_eq!(d.calc_resolution_bond(), 500);
    d.finalize_final_arbitrator(answer("a"));
    assert_eq!(d.calc_validity_bond_to_return(), 100);
    assert_eq!(d.calc_resolution_fee_payout(), 500);
    d.finalize_final_arbitrator(Outcome::Invalid);
    assert_eq!(d.calc_validity_bond_to_return(), 0);
    assert_eq!(d.calc_resolution_fee_payout(), 600);

    let mut small = DataRequest::new(name("creator"), 0, config(100, 10_000, 500), args(), 1_000);
    assert_eq!(small.calc_fee(), 50);
    assert_eq!(small.calc_resolution_bond(), 100);
    small.finalize_final_arbitrator(answer("a"));
    assert_eq!(small.calc_validity_bond_to_return(), 50);
    assert_eq!(small.calc_resolution_fee_payout(), 100);
}

#[test]
fn fee_rounds_down() {
    let d = DataRequest::new(name("creator"), 0, config(100, 10_000, 3), args(), 9_999);
    assert_eq!(d.calc_fee(), 2);
}

#[test]
fn fee_limit() {
    assert_eq!(fee_within_limit(1000, 250), Some(25));
    assert_eq!(fee_within_limit(u128::MAX, 10_000), None);
    assert_eq!(fee_within_limit(u128::MAX, 0), Some(0));
    assert_eq!(fee_within_limit(u128::MAX / 4, 10_000), Some(u128::MAX / 4));
    let mut c = Contract::new(None, config(100, 10_000, 10_000));
    assert_eq!(c.dr_new(&name("token"), name("creator"), 100, u128::MAX, args(), 0), Err(OracleError::BondOutOfRange));
}

#[test]
fn outcome_list_membership() {
    let mut c = Contract::new(None, config(100, 10_000, 0));
    let mut a = args();
    a.outcomes = Some(vec![name("yes"), name("no")]);
    c.dr_new(&name("token"), name("creator"), 100, 0, a, 0).unwrap();
    let d = &c.data_requests[0];
    assert_eq!(d.assert_valid_outcome(&answer("no")), Ok(()));
    assert_eq!(d.assert_valid_outcome(&Outcome::Invalid), Ok(()));
    assert_eq!(d.assert_valid_outcome(&answer("maybe")), Err(OracleError::IncompatibleOutcome));
}

#[test]
fn small_value_types() {
    let s = FeeStatus::new();
    assert_eq!(s.market_cap, 0);
    assert_eq!(s.total_value_secured, 0);
    assert_eq!(s.fee_percentage, 1);
    assert!(ProposalStatus::Executed.is_finished());
    assert!(ProposalStatus::Rejected.is_finished());
    assert!(!ProposalStatus::Vote.is_finished());
    assert!(!ProposalStatus::Success.is_finished());
    let r = Requestor::new_no_whitelist(&name("req"));
    assert_eq!(r.account_id, "req");
    assert_eq!(r.interface_name, "");
    assert!(r.stake_multiplier.is_none());
    assert!(r.code_base_url.is_none());
}

fn number(value: u128, multiplier: u128, negative: bool) -> Outcome {
    Outcome::Answer(AnswerType::Number(AnswerNumberType { value, multiplier, negative }))
}

#[test]
fn numeric_answers() {
    assert!(number(5, 1, false) == number(5, 1, false));
    assert!(number(5, 1, false) != number(5, 1, true));
    assert!(number(5, 1, false) != answer("5"));
    assert!(Outcome::Invalid == Outcome::Invalid);
    assert!(Outcome::Invalid != answer("a"));

    let mut open = contract_with_request(100, 10_000);
    assert_eq!(stake(&mut open, "x", 100, number(42, 10, true)), Ok(0));
    assert!(open.data_requests[0].resolution_windows[0].bonded_outcome.as_ref().unwrap() == &number(42, 10, true));
    assert_eq!(stake(&mut open, "y", 200, number(42, 10, true)), Err(OracleError::RepeatedOutcome));
    assert_eq!(stake(&mut open, "y", 200, number(42, 10, false)), Ok(0));

    let mut fixed = Contract::new(None, config(100, 10_000, 0));
    let mut a = args();
    a.outcomes = Some(vec![name("42"), name("7")]);
    fixed.dr_new(&name("token"), name("creator"), 100, 0, a, 0).unwrap();
    assert_eq!(
        fixed.data_requests[0].assert_valid_outcome(&number(42, 1, false)),
        Err(OracleError::IncompatibleOutcome)
    );
    assert_eq!(fixed.data_requests[0].assert_valid_outcome(&answer("42")), Ok(()));
}

fn open_bond(c: &Contract) -> u128 {
    let w = &c.data_requests[0].resolution_windows;
    if w.len() == 0 {
        c.data_requests[0].calc_resolution_bond()
    } else {
        w[w.len() - 1].bond_size
    }
}

// Bob stakes correctly and Carol keeps disputing until the final arbitrator
// is invoked and decides.
#[test]
fn dr_scenario_1() {
    let mut c = Contract::new(None, config(1, 2500, 0));
    c.dr_new(&name("token"), name("alice"), 1, 0, args(), 0).unwrap();
    let mut i: u32 = 0;
    while !c.data_requests[0].final_arbitrator_triggered {
        let bond_size = open_bond(&c);
        assert_eq!(bond_size, 1u128 << i);
        if i % 2 == 0 {
            assert_eq!(stake(&mut c, "bob", bond_size, answer("test")), Ok(0));
        } else {
            assert_eq!(stake(&mut c, "carol", bond_size, answer("test_wrong")), Ok(0));
        }
        i += 1;
    }
    assert_eq!(i, 13);
    // once the arbitrator is invoked, further stake is handed back whole
    assert_eq!(stake(&mut c, "carol", 10, answer("other")), Ok(10));
    assert_eq!(c.dr_finalize(0, 1_000_000), Err(OracleError::FinalArbitratorTriggered));
    assert_eq!(c.dr_final_arbitrator_finalize(&name("arbiter"), 0, answer("test")), Ok(0));
    // round 0's pool of 1 plus every bond Carol lost: 2 + 8 + ... + 2048
    assert_eq!(c.dr_claim(name("bob"), 0), Ok(1 + 2730));
    assert_eq!(c.dr_claim(name("carol"), 0), Ok(0));
    assert_eq!(c.dr_claim(name("bob"), 0), Ok(0));
}

// Bob, Carol and Jasper fill each correct round together (a quarter, a
// quarter and a half) while Peter escalates with a wrong outcome.
#[test]
fn dr_scenario_2() {
    let mut c = Contract::new(None, config(4, 200, 0));
    c.dr_new(&name("token"), name("alice"), 4, 0, args(), 0).unwrap();
    let mut i: u32 = 0;
    while !c.data_requests[0].final_arbitrator_triggered {
        let bond_size = open_bond(&c);
        if i % 2 == 0 {
            assert_eq!(stake(&mut c, "bob", bond_size / 4, answer("test")), Ok(0));
            assert_eq!(stake(&mut c, "carol", bond_size / 4, answer("test")), Ok(0));
            assert_eq!(stake(&mut c, "jasper", bond_size, answer("test")), Ok(bond_size / 2));
        } else {
            assert_eq!(stake(&mut c, "peter", bond_size, answer("test_wrong")), Ok(0));
        }
        i += 1;
    }
    assert_eq!(c.data_requests[0].resolution_windows.len(), 7);
    assert_eq!(c.dr_final_arbitrator_finalize(&name("arbiter"), 0, answer("test")), Ok(0));
    // correct later rounds bond 16 + 64 + 256 = 336, lost bonds 8 + 32 + 128 = 168
    assert_eq!(c.dr_claim(name("bob"), 0), Ok(1 + 42));
    assert_eq!(c.dr_claim(name("carol"), 0), Ok(1 + 42));
    assert_eq!(c.dr_claim(name("jasper"), 0), Ok(2 + 84));
    assert_eq!(c.dr_claim(name("peter"), 0), Ok(0));
}

// One staker fills round 0, nobody disputes, the request finalizes on its
// own and the staker claims the round-0 pool.
#[test]
fn dr_claim_flow() {
    let mut c = Contract::new(None, config(100, 10_000, 0));
    c.dr_new(&name("token"), name("alice"), 100, 0, args(), 0).unwrap();
    assert_eq!(stake(&mut c, "alice", 250, answer("test")), Ok(150));
    assert_eq!(c.dr_claim(name("alice"), 0), Err(OracleError::NotFinalized));
    assert_eq!(c.dr_finalize(0, 999), Err(OracleError::ChallengePeriodNotEnded));
    assert_eq!(c.dr_finalize(0, 1000), Ok(0));
    assert_eq!(c.dr_claim(name("alice"), 0), Ok(100));
    assert_eq!(c.dr_claim(name("alice"), 0), Ok(0));
}

// A fee above the validity bond sets round 0's bond and the pool, and the
// creator gets the validity bond back.
#[test]
fn dr_fixed_fee_flow() {
    let mut c = Contract::new(None, config(100, 100_000, 100));
    // 1% of 30 000 is a fee of 300
    c.dr_new(&name("token"), name("alice"), 100, 30_000, args(), 0).unwrap();
    assert_eq!(open_bond(&c), 300);
    assert_eq!(stake(&mut c, "bob", 300, answer("test")), Ok(0));
    assert_eq!(c.dr_finalize(0, 1000), Ok(100));
    assert_eq!(c.dr_claim(name("bob"), 0), Ok(300));
}
