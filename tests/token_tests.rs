use oracle::contract::Contract;
use oracle::error::OracleError;
use oracle::token::{Token, DEFAULT_BALANCE};
use oracle::types::OracleConfig;

const VALIDITY_BOND: u128 = 100;

fn to_yocto(near: u128) -> u128 {
    near * 10u128.pow(24)
}

fn init_balance() -> u128 {
    to_yocto(100000)
}

struct TestUtils {
    oracle_contract: Contract,
    token_contract: Token,
}

struct TestSetupArgs {
    validity_bond: u128,
    final_arbitrator_invoke_amount: u128,
}

fn init(test_setup_args: Option<TestSetupArgs>) -> TestUtils {
    let args = test_setup_args.unwrap_or(TestSetupArgs {
        validity_bond: VALIDITY_BOND,
        final_arbitrator_invoke_amount: 2500,
    });
    let config = OracleConfig {
        gov: "master".to_string(),
        final_arbitrator: "master".to_string(),
        bond_token: "token".to_string(),
        stake_token: "token".to_string(),
        validity_bond: args.validity_bond,
        max_outcomes: 8,
        default_challenge_window_duration: 1000,
        min_initial_challenge_window_duration: 1000,
        final_arbitrator_invoke_amount: args.final_arbitrator_invoke_amount,
        resolution_fee_percentage: 0,
    };
    let oracle_contract = Contract::new(None, config);
    let mut token_contract = Token::default_new("master".to_string());
    for name in ["alice", "bob", "carol", "jasper", "peter", "illia", "vitalik", "treasurer"] {
        token_contract.deposit(&name.to_string(), init_balance() / 2).unwrap();
    }
    TestUtils { oracle_contract, token_contract }
}

#[test]
fn test_initiation() {
    let init_res = init(None);
    assert_eq!(init_res.oracle_contract.config.validity_bond, VALIDITY_BOND);
    assert_eq!(init_res.oracle_contract.data_requests.len(), 0);
}

#[test]
fn test_balances() {
    let init_res = init(None);
    let balance = init_res.token_contract.get_balance_expect(&"alice".to_string());
    assert_eq!(balance, init_balance() / 2);
}

#[test]
fn contract_creation_with_new() {
    let token = Token::default_new("carol.near".to_string());
    assert_eq!(token.get_balance_expect(&"carol.near".to_string()), DEFAULT_BALANCE);
    assert_eq!(token.get_balance_expect(&"bob.near".to_string()), 0);
}

#[test]
fn transfer_works() {
    let mut token = Token::default_new("carol.near".to_string());
    let carol_balance = token.get_balance_expect(&"carol.near".to_string());
    let send_amount = 10000;
    token.internal_transfer(&"carol.near".to_string(), &"bob.near".to_string(), send_amount).unwrap();
    assert_eq!(token.get_balance_expect(&"bob.near".to_string()), send_amount);
    assert_eq!(token.get_balance_expect(&"carol.near".to_string()), carol_balance - send_amount);
}

#[test]
fn transfer_refused_without_funds() {
    let mut token = Token::default_new("carol.near".to_string());
    assert_eq!(
        token.internal_transfer(&"bob.near".to_string(), &"carol.near".to_string(), 1),
        Err(OracleError::InsufficientBalance)
    );
    assert_eq!(
        token.internal_transfer(&"carol.near".to_string(), &"bob.near".to_string(), DEFAULT_BALANCE + 1),
        Err(OracleError::InsufficientBalance)
    );
    assert_eq!(token.withdraw(&"bob.near".to_string(), 1), Err(OracleError::InsufficientBalance));
    assert_eq!(token.get_balance_expect(&"carol.near".to_string()), DEFAULT_BALANCE);
}

#[test]
fn deposit_overflow_refused() {
    let mut token = Token::default_new("carol.near".to_string());
    assert_eq!(token.deposit(&"carol.near".to_string(), u128::MAX), Err(OracleError::BalanceOverflow));
    assert_eq!(token.deposit(&"dave.near".to_string(), u128::MAX), Ok(()));
    assert_eq!(token.withdraw(&"dave.near".to_string(), 5), Ok(()));
    assert_eq!(token.get_balance_expect(&"dave.near".to_string()), u128::MAX - 5);
}
