use glow_ve::error::ContractError;
use glow_ve::fee_distributor::{Config, FeeDistributor};
use glow_ve::fee_msg::{StakerResponse, StateResponse};
use glow_ve::ve_msg::Cw20HookMsg;
use glow_ve::ve_token::VeToken;
use glow_ve::SECONDS_PER_WEEK;

const VOTING_TOKEN: u64 = 100;
const VE_TOKEN: u64 = 200;
const TERRASWAP_FACTORY: u64 = 300;
const TEST_CREATOR: u64 = 1000;
const TEST_VOTER: u64 = 1;
const MOCK_CONTRACT_ADDR: u64 = 4000;

fn mock_instantiate() -> FeeDistributor {
    let mut fd = FeeDistributor::instantiate(TEST_CREATOR, MOCK_CONTRACT_ADDR);
    fd.register_contracts(VOTING_TOKEN, VE_TOKEN, TERRASWAP_FACTORY).unwrap();
    fd
}

/// An engine whose only locker has a voting balance of exactly 100 one week after
/// time 1_000_000, and a positive one at every week boundary before that.
fn engine_with_one_locker() -> VeToken {
    let mut ve = VeToken::instantiate(TEST_CREATOR, 1);
    ve.execute_register_contracts(VOTING_TOKEN).unwrap();
    ve.receive_cw20(
        VOTING_TOKEN,
        TEST_VOTER,
        129_887,
        Some(Cw20HookMsg::CreateLock { end_lock_time: 3 * SECONDS_PER_WEEK }),
        1,
    )
    .unwrap();
    ve
}

#[test]
fn proper_initialization() {
    let mut fd = FeeDistributor::instantiate(TEST_CREATOR, MOCK_CONTRACT_ADDR);
    assert_eq!(
        fd.config,
        Config { owner: TEST_CREATOR, glow_token: None, ve_token: None, terraswap_factory: None }
    );
    fd.register_contracts(VOTING_TOKEN, VE_TOKEN, TERRASWAP_FACTORY).unwrap();
    assert_eq!(fd.config.glow_token, Some(VOTING_TOKEN));
    assert_eq!(
        fd.query_state(),
        StateResponse { contract_addr: MOCK_CONTRACT_ADDR, total_distributed_unclaimed_fees: 0 }
    );
}

#[test]
fn fail_distribute_glow_nothing_staked() {
    let mut fd = mock_instantiate();
    let ve = VeToken::instantiate(TEST_CREATOR, 0);
    match fd.distribute_glow(&ve, 0, 10000) {
        Err(ContractError::NothingStaked {}) => {}
        _ => panic!("DO NOT ENTER"),
    };
}

#[test]
fn fail_distribute_glow_nothing_to_distribute() {
    let mut fd = mock_instantiate();
    let ve = engine_with_one_locker();
    // A week boundary at which the locker holds voting power.
    let now = SECONDS_PER_WEEK + 10000;
    assert!(ve.query_state(Some(SECONDS_PER_WEEK), now).unwrap().total_balance > 0);
    match fd.distribute_glow(&ve, 0, now) {
        Err(ContractError::NothingToDistribute {}) => {}
        _ => panic!("DO NOT ENTER"),
    };
}

fn distribute_and_claim() {
    let mut fd = mock_instantiate();
    let ve = engine_with_one_locker();
    let mut now = 1000000;
    assert_eq!(fd.distribute_glow(&ve, 10, now), Ok(10));

    now += SECONDS_PER_WEEK;
    let response = fd.query_staker(&ve, TEST_VOTER, now, None, None).unwrap();
    assert_eq!(
        response,
        StakerResponse {
            balance: 100,
            initial_last_claimed_fee_timestamp: 0,
            last_claimed_fee_timestamp: 1000000 / SECONDS_PER_WEEK * SECONDS_PER_WEEK,
            claimable_fees_lower_bound: 10,
        }
    );

    let claimed = fd.claim(&ve, TEST_VOTER, now, None).unwrap();
    assert_eq!(claimed, 10);
    assert_eq!(fd.state.total_distributed_unclaimed_fees, 0);
}

#[test]
fn distribute_glow_to_voter() {
    distribute_and_claim();
}

#[test]
fn distribute_glow_to_voter_2() {
    distribute_and_claim();
}
