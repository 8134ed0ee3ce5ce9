use oracle::contract::Contract;
use oracle::data_request::{DataRequest, NewDataRequestArgs};
use oracle::error::OracleError;
use oracle::resolution_window::ResolutionWindow;
use oracle::types::{AnswerType, OracleConfig, Outcome, Source, StakeDataRequestArgs};

fn alice() -> String {
    "alice.near".to_string()
}

fn bob() -> String {
    "bob.near".to_string()
}

fn carol() -> String {
    "carol.near".to_string()
}

fn token() -> String {
    "token.near".to_string()
}

fn target() -> String {
    "target.near".to_string()
}

fn gov() -> String {
    "gov.near".to_string()
}

fn config() -> OracleConfig {
    OracleConfig {
        gov: gov(),
        final_arbitrator: alice(),
        bond_token: token(),
        stake_token: token(),
        validity_bond: 100,
        max_outcomes: 8,
        default_challenge_window_duration: 1000,
        min_initial_challenge_window_duration: 1000,
        final_arbitrator_invoke_amount: 250,
        resolution_fee_percentage: 0,
    }
}

fn contract_with(c: OracleConfig) -> Contract {
    Contract::new(Some(vec![bob(), carol()]), c)
}

fn contract() -> Contract {
    contract_with(config())
}

fn args(outcomes: Option<Vec<String>>, settlement_time: u64, challenge_period: u64) -> NewDataRequestArgs {
    NewDataRequestArgs {
        sources: Vec::new(),
        outcomes,
        settlement_time,
        challenge_period,
        target_contract: target(),
    }
}

fn answer(s: &str) -> Outcome {
    Outcome::Answer(AnswerType::String(s.to_string()))
}

fn dr_new(contract: &mut Contract) {
    let r = contract.dr_new(&token(), bob(), 100, 0, args(Some(vec!["a".to_string(), "b".to_string()]), 0, 1500), 0);
    assert_eq!(r, Ok(0));
}

fn stake(contract: &mut Contract, who: String, amount: u128, outcome: Outcome, now: u64) -> Result<u128, OracleError> {
    contract.dr_stake(&token(), who, amount, StakeDataRequestArgs { id: 0, outcome }, now)
}

fn window(contract: &Contract, round: usize) -> &ResolutionWindow {
    &contract.data_requests[0].resolution_windows[round]
}

#[test]
fn dr_new_arg_source_exceed() {
    let mut contract = contract();
    let r = contract.dr_new(&token(), bob(), 100, 0, args(None, 0, 1000), 0);
    assert_eq!(r, Ok(0));
}

#[test]
fn dr_new_arg_outcome_exceed() {
    let mut contract = contract();
    let r = contract.dr_new(&token(), bob(), 100, 0, args(None, 0, 1000), 0);
    assert_eq!(r, Ok(0));
}

#[test]
fn dr_new_success_exceed_amount() {
    let mut contract = contract();
    let amount = contract.dr_new(&token(), bob(), 200, 0, args(None, 0, 1500), 0);
    assert_eq!(amount, Ok(100));
}

#[test]
fn dr_new_success() {
    let mut contract = contract();
    let amount = contract.dr_new(&token(), bob(), 100, 0, args(None, 0, 1500), 0);
    assert_eq!(amount, Ok(0));
    assert_eq!(contract.data_requests.len(), 1);
    assert_eq!(contract.data_requests[0].id, 0);
}

#[test]
fn dr_new_refusals() {
    let mut contract = contract();
    let one = Some(vec!["a".to_string()]);
    assert_eq!(contract.dr_new(&token(), bob(), 100, 0, args(one, 0, 1500), 0), Err(OracleError::InvalidOutcomeCount));
    let nine = Some((0..9).map(|i| i.to_string()).collect::<Vec<String>>());
    assert_eq!(contract.dr_new(&token(), bob(), 100, 0, args(nine, 0, 1500), 0), Err(OracleError::InvalidOutcomeCount));
    assert_eq!(contract.dr_new(&token(), alice(), 100, 0, args(None, 0, 1500), 0), Err(OracleError::NotWhitelisted));
    assert_eq!(contract.dr_new(&token(), bob(), 100, 0, args(None, 0, 999), 0), Err(OracleError::ChallengePeriodTooShort));
    assert_eq!(contract.dr_new(&token(), bob(), 100, 0, args(None, 0, 3001), 0), Err(OracleError::ChallengePeriodTooLong));
    assert_eq!(
        contract.dr_new(&token(), bob(), 100, 0, args(None, 1_000_000_000_000 * 1000 * 1000, 1500), 0),
        Err(OracleError::SettlementTimeTooFar)
    );
    assert_eq!(contract.dr_new(&token(), bob(), 90, 0, args(None, 0, 1500), 0), Err(OracleError::ValidityBondNotReached));
    let mut sources = Vec::new();
    for i in 0..9 {
        sources.push(Source { end_point: format!("e{}", i), source_path: "p".to_string() });
    }
    let many = NewDataRequestArgs { sources, outcomes: None, settlement_time: 0, challenge_period: 1500, target_contract: target() };
    assert_eq!(contract.dr_new(&token(), bob(), 100, 0, many, 0), Err(OracleError::TooManySources));
    assert_eq!(contract.data_requests.len(), 0);
}

#[test]
fn dr_new_zero_bond_refused() {
    let mut c = config();
    c.validity_bond = 0;
    let mut contract = contract_with(c);
    assert_eq!(contract.dr_new(&token(), bob(), 0, 0, args(None, 0, 1500), 0), Err(OracleError::BondOutOfRange));
}

#[test]
fn whitelist_assert_passes_when_empty() {
    let contract = Contract::new(None, config());
    assert_eq!(contract.assert_whitelisted(&alice()), Ok(()));
}

#[test]
fn setting_initial_whitelist() {
    let contract = contract();
    assert!(!contract.whitelist_contains(&alice()));
    assert!(contract.whitelist_contains(&bob()));
    assert!(contract.whitelist_contains(&carol()));
}

#[test]
fn dr_stake_success_partial() {
    let mut contract = contract();
    dr_new(&mut contract);
    let b = stake(&mut contract, alice(), 5, answer("a"), 0);
    assert_eq!(b, Ok(0), "Invalid balance");
    assert_eq!(contract.data_requests[0].resolution_windows.len(), 1);
    let round0 = window(&contract, 0);
    assert_eq!(round0.round, 0);
    assert_eq!(round0.end_time, 1500);
    // round 0 bonds at the resolution bond: the validity bond of 100
    assert_eq!(round0.bond_size, 100);
}

#[test]
fn dr_stake_success_full_at_t0() {
    let mut contract = contract();
    dr_new(&mut contract);
    let b = stake(&mut contract, alice(), 200, answer("a"), 0);
    assert_eq!(b, Ok(100), "Invalid balance");
    assert_eq!(contract.data_requests[0].resolution_windows.len(), 2);
    let round0 = window(&contract, 0);
    assert_eq!(round0.round, 0);
    assert_eq!(round0.end_time, 1500);
    assert_eq!(round0.bond_size, 100);
    let round1 = window(&contract, 1);
    assert_eq!(round1.round, 1);
    assert_eq!(round1.end_time, 1000);
    assert_eq!(round1.bond_size, 200);
}

#[test]
fn dr_stake_success_overstake_at_t600() {
    let mut contract = contract();
    dr_new(&mut contract);
    let b = stake(&mut contract, alice(), 300, answer("a"), 600);
    assert_eq!(b, Ok(200), "Invalid balance");
    assert_eq!(contract.data_requests[0].resolution_windows.len(), 2);
    let round0 = window(&contract, 0);
    assert_eq!(round0.round, 0);
    assert_eq!(round0.end_time, 2100);
    assert_eq!(round0.bond_size, 100);
    let round1 = window(&contract, 1);
    assert_eq!(round1.round, 1);
    assert_eq!(round1.end_time, 1600);
    assert_eq!(round1.bond_size, 200);
}

#[test]
fn dr_finalize_success() {
    let mut contract = contract();
    dr_new(&mut contract);
    stake(&mut contract, alice(), 200, answer("a"), 0).unwrap();
    assert_eq!(contract.dr_finalize(0, 1501), Ok(0));
    let request: &DataRequest = &contract.data_requests[0];
    assert_eq!(request.resolution_windows.len(), 2);
    assert!(request.finalized_outcome.as_ref().unwrap() == &answer("a"));
}

#[test]
fn dr_stake_refusals() {
    let mut contract = contract();
    assert_eq!(stake(&mut contract, alice(), 100, answer("42"), 0), Err(OracleError::UnknownDataRequest));
    dr_new(&mut contract);
    assert_eq!(stake(&mut contract, alice(), 100, answer("42"), 0), Err(OracleError::IncompatibleOutcome));
    stake(&mut contract, alice(), 300, answer("a"), 0).unwrap();
    assert_eq!(stake(&mut contract, alice(), 500, answer("a"), 0), Err(OracleError::RepeatedOutcome));
    assert_eq!(contract.dr_finalize(0, 1501), Ok(0));
    assert_eq!(stake(&mut contract, alice(), 200, answer("b"), 1501), Err(OracleError::AlreadyFinalized));
}

#[test]
fn dr_stake_before_settlement_refused() {
    let mut contract = contract();
    contract.dr_new(&token(), bob(), 100, 0, args(None, 10, 1500), 0).unwrap();
    assert_eq!(stake(&mut contract, alice(), 100, answer("a"), 5), Err(OracleError::SettlementTimeNotPassed));
    assert_eq!(stake(&mut contract, alice(), 100, answer("a"), 10), Ok(0));
}

#[test]
fn dr_finalize_refusals() {
    let mut contract = contract();
    assert_eq!(contract.dr_finalize(0, 0), Err(OracleError::UnknownDataRequest));
    dr_new(&mut contract);
    assert_eq!(contract.dr_finalize(0, 0), Err(OracleError::NoResolutionWindows));
    stake(&mut contract, alice(), 200, answer("a"), 0).unwrap();
    assert_eq!(contract.dr_finalize(0, 0), Err(OracleError::ChallengePeriodNotEnded));
    assert_eq!(contract.dr_finalize(0, 1000), Ok(0));
    assert_eq!(contract.dr_finalize(0, 1000), Err(OracleError::AlreadyFinalized));
}

#[test]
fn dr_finalize_final_arb_refused() {
    let mut c = config();
    c.final_arbitrator_invoke_amount = 150;
    let mut contract = contract_with(c);
    dr_new(&mut contract);
    stake(&mut contract, alice(), 200, answer("a"), 0).unwrap();
    stake(&mut contract, alice(), 200, answer("b"), 0).unwrap();
    assert!(contract.data_requests[0].final_arbitrator_triggered);
    assert_eq!(contract.dr_finalize(0, 5000), Err(OracleError::FinalArbitratorTriggered));
}

#[test]
fn dr_unstake_flow() {
    let mut contract = contract();
    dr_new(&mut contract);
    stake(&mut contract, alice(), 60, answer("a"), 0).unwrap();
    stake(&mut contract, bob(), 30, answer("b"), 0).unwrap();
    assert_eq!(contract.dr_unstake(alice(), 1, 0, answer("a"), 10), Err(OracleError::UnknownDataRequest));
    assert_eq!(contract.dr_unstake(alice(), 0, 3, answer("a"), 10), Err(OracleError::UnknownRound));
    assert_eq!(contract.dr_unstake(alice(), 0, 0, answer("a"), 61), Err(OracleError::InsufficientStake));
    assert_eq!(contract.dr_unstake(alice(), 0, 0, answer("a"), 10), Ok(10));
    assert_eq!(window(&contract, 0).outcome_stake(&answer("a")), 50);
    assert_eq!(window(&contract, 0).user_stake(&alice(), &answer("a")), 50);
    assert_eq!(window(&contract, 0).user_stake(&bob(), &answer("b")), 30);
    // 50 more fill round 0 with "a"; that stake is then locked
    stake(&mut contract, carol(), 50, answer("a"), 0).unwrap();
    assert_eq!(contract.dr_unstake(alice(), 0, 0, answer("a"), 10), Err(OracleError::BondedOutcome));
    assert_eq!(contract.dr_unstake(bob(), 0, 0, answer("b"), 30), Ok(30));
}

#[test]
fn whitelist_add_remove() {
    let mut contract = contract();
    assert!(!contract.whitelist_contains(&alice()));
    assert_eq!(contract.add_to_whitelist(&gov(), alice()), Ok(()));
    assert!(contract.whitelist_contains(&alice()));
    assert_eq!(contract.remove_from_whitelist(&gov(), &alice()), Ok(()));
    assert!(!contract.whitelist_contains(&alice()));
    assert!(contract.whitelist_contains(&bob()));
}

#[test]
fn whitelist_changes_need_gov() {
    let mut contract = contract();
    assert_eq!(contract.add_to_whitelist(&alice(), alice()), Err(OracleError::NotGov));
    assert_eq!(contract.remove_from_whitelist(&alice(), &bob()), Err(OracleError::NotGov));
    assert!(contract.whitelist_contains(&bob()));
    let mut open = Contract::new(None, config());
    assert_eq!(open.remove_from_whitelist(&gov(), &bob()), Err(OracleError::NoWhitelist));
    assert_eq!(open.add_to_whitelist(&gov(), bob()), Ok(()));
    assert_eq!(open.assert_whitelisted(&alice()), Err(OracleError::NotWhitelisted));
    assert_eq!(open.assert_whitelisted(&bob()), Ok(()));
}

#[test]
fn proceed_dr_new_after_tvl_fetch() {
    let mut contract = contract();
    assert_eq!(contract.proceed_dr_new(&token(), bob(), 100, None, args(None, 0, 1500), 0), Err(OracleError::TvlUnavailable));
    assert_eq!(contract.data_requests.len(), 0);
    assert_eq!(contract.proceed_dr_new(&token(), bob(), 150, Some(0), args(None, 0, 1500), 0), Ok(50));
    assert_eq!(contract.data_requests[0].tvl, 0);
}

#[test]
fn fee_sets_the_first_bond() {
    let mut c = config();
    c.resolution_fee_percentage = 100;
    c.final_arbitrator_invoke_amount = 10_000;
    let mut contract = contract_with(c);
    contract.dr_new(&token(), bob(), 100, 50_000, args(None, 0, 1500), 0).unwrap();
    assert_eq!(stake(&mut contract, alice(), 1000, answer("a"), 0), Ok(500));
    assert_eq!(window(&contract, 0).bond_size, 500);
    assert_eq!(window(&contract, 1).bond_size, 1000);
}

#[test]
fn dr_new_and_stake_need_their_token() {
    let mut contract = contract();
    assert_eq!(contract.dr_new(&alice(), bob(), 100, 0, args(None, 0, 1500), 0), Err(OracleError::NotBondToken));
    dr_new(&mut contract);
    let r = contract.dr_stake(&alice(), alice(), 100, StakeDataRequestArgs { id: 0, outcome: answer("a") }, 0);
    assert_eq!(r, Err(OracleError::NotStakeToken));
    assert_eq!(contract.data_requests[0].resolution_windows.len(), 0);
}
