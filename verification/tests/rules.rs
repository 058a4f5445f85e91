use quid_store::{
    is_eligible, Address, Engine, Error, MinAsset, Mission, MissionStatus, Party, Reward,
    Submission, SubmissionStatus, Transfer,
};
use std::collections::HashMap;

fn addr(key: &str) -> Address {
    Address::from_str(key)
}

fn reward(token: &str, amount: i128) -> Reward {
    Reward {
        reward_token: addr(token),
        reward_amount: amount,
    }
}

fn ungated() -> MinAsset {
    MinAsset {
        min_asset_token: None,
        min_asset_amount: 0,
    }
}

fn gated(token: &str, amount: i128) -> MinAsset {
    MinAsset {
        min_asset_token: Some(addr(token)),
        min_asset_amount: amount,
    }
}

fn deposit(token: &str, from: &str, amount: i128) -> Transfer {
    Transfer {
        token: addr(token),
        from: Party::Account(addr(from)),
        to: Party::Escrow,
        amount,
    }
}

fn release(token: &str, to: &str, amount: i128) -> Transfer {
    Transfer {
        token: addr(token),
        from: Party::Escrow,
        to: Party::Account(addr(to)),
        amount,
    }
}

/// An engine with one open mission of `slots` rewards of 100 XLM.
fn with_mission(slots: u32) -> (Engine, u64) {
    let mut engine = Engine::new();
    let (id, _) = engine
        .create_mission(
            addr("owner"),
            "Title".to_string(),
            "Description".to_string(),
            reward("XLM", 100),
            slots,
            ungated(),
        )
        .unwrap();
    (engine, id)
}

fn submit(engine: &mut Engine, id: u64, hunter: &str, stake: i128) -> Result<Transfer, Error> {
    engine.submit_feedback(id, addr(hunter), "cid".to_string(), addr("USDC"), stake, 0)
}

/// What the records account for in escrow, by token.
fn accounted(engine: &Engine) -> HashMap<String, i128> {
    let mut total: HashMap<String, i128> = HashMap::new();
    for mission in engine.missions() {
        if mission.status != MissionStatus::Cancelled {
            *total
                .entry(mission.reward_token.as_str().to_string())
                .or_insert(0) += mission.reward_amount
                * (mission.max_participants - mission.participants_count) as i128;
        }
    }
    for submission in engine.submissions() {
        if submission.stake_held {
            *total
                .entry(submission.stake_token.as_str().to_string())
                .or_insert(0) += submission.stake_amount;
        }
    }
    total.retain(|_, amount| *amount != 0);
    total
}

/// Books the transfers on the escrow balances.
fn book(escrow: &mut HashMap<String, i128>, transfers: &[Transfer]) {
    for transfer in transfers {
        let balance = escrow
            .entry(transfer.token.as_str().to_string())
            .or_insert(0);
        match (&transfer.from, &transfer.to) {
            (Party::Account(_), Party::Escrow) => *balance += transfer.amount,
            (Party::Escrow, Party::Account(_)) => *balance -= transfer.amount,
            _ => panic!("a transfer that does not cross the escrow boundary"),
        }
    }
    escrow.retain(|_, amount| *amount != 0);
}

#[test]
fn new_ledger_is_empty() {
    let engine = Engine::new();
    assert!(engine.missions().is_empty());
    assert!(engine.submissions().is_empty());
    assert_eq!(engine.get_treasury(), Err(Error::TreasuryNotSet));
    assert_eq!(engine.get_mission(1), Err(Error::MissionNotFound));
    assert_eq!(engine.get_mission(0), Err(Error::MissionNotFound));
}

#[test]
fn create_mission_asks_for_the_whole_pool() {
    let mut engine = Engine::new();
    let created = engine.create_mission(
        addr("owner"),
        "Title".to_string(),
        "Description".to_string(),
        reward("XLM", 100),
        5,
        gated("GOV", 7),
    );
    assert_eq!(created, Ok((1, deposit("XLM", "owner", 500))));
    assert_eq!(
        engine.get_mission(1),
        Ok(Mission {
            id: 1,
            owner: addr("owner"),
            title: "Title".to_string(),
            description: "Description".to_string(),
            reward_token: addr("XLM"),
            reward_amount: 100,
            max_participants: 5,
            participants_count: 0,
            status: MissionStatus::Open,
            min_asset_token: Some(addr("GOV")),
            min_asset_amount: 7,
        })
    );
}

#[test]
fn mission_identities_count_up_from_one() {
    let mut engine = Engine::new();
    for expected in 1..=3u64 {
        let (id, _) = engine
            .create_mission(
                addr("owner"),
                "Same title".to_string(),
                "Same description".to_string(),
                reward("XLM", 1),
                1,
                ungated(),
            )
            .unwrap();
        assert_eq!(id, expected);
        assert_eq!(engine.get_mission(id).unwrap().id, expected);
    }
    assert_eq!(engine.get_mission(4), Err(Error::MissionNotFound));
}

#[test]
fn create_mission_with_zero_reward_moves_nothing() {
    let mut engine = Engine::new();
    let created = engine.create_mission(
        addr("owner"),
        "Title".to_string(),
        "Description".to_string(),
        reward("XLM", 0),
        5,
        ungated(),
    );
    assert_eq!(created, Err(Error::InvalidReward));
    assert!(engine.missions().is_empty());
    assert_eq!(engine.get_mission(1), Err(Error::MissionNotFound));
    assert!(accounted(&engine).is_empty());
}

#[test]
fn create_mission_rejects_negative_reward_before_the_threshold() {
    let mut engine = Engine::new();
    let created = engine.create_mission(
        addr("owner"),
        "Title".to_string(),
        "Description".to_string(),
        reward("XLM", -1),
        5,
        gated("GOV", 0),
    );
    assert_eq!(created, Err(Error::InvalidReward));
}

#[test]
fn threshold_is_ignored_without_a_gating_asset() {
    let mut engine = Engine::new();
    let created = engine.create_mission(
        addr("owner"),
        "Title".to_string(),
        "Description".to_string(),
        reward("XLM", 100),
        2,
        MinAsset {
            min_asset_token: None,
            min_asset_amount: -5,
        },
    );
    assert_eq!(created, Ok((1, deposit("XLM", "owner", 200))));
    assert_eq!(submit(&mut engine, 1, "hunter", 10).is_ok(), true);
}

#[test]
fn mission_without_slots_is_full_from_the_start() {
    let (mut engine, id) = with_mission(0);
    assert_eq!(submit(&mut engine, id, "hunter", 10), Ok(deposit("USDC", "hunter", 10)));
    assert_eq!(
        engine.payout_participant(id, addr("hunter")),
        Err(Error::MissionFull)
    );
    assert_eq!(
        engine.cancel_mission(id),
        Ok(vec![release("XLM", "owner", 0), release("USDC", "hunter", 10)])
    );
}

#[test]
fn eligibility_is_inclusive() {
    let token = Some(addr("GOV"));
    assert!(is_eligible(&token, 1000, 1000));
    assert!(is_eligible(&token, 1000, 1001));
    assert!(!is_eligible(&token, 1000, 999));
    assert!(is_eligible(&None, 1000, 0));
    assert!(is_eligible(&None, 1000, -1));
}

#[test]
fn gated_submission_at_and_below_the_threshold() {
    let mut engine = Engine::new();
    let (id, _) = engine
        .create_mission(
            addr("owner"),
            "Title".to_string(),
            "Description".to_string(),
            reward("XLM", 100),
            5,
            gated("GOV", 1000),
        )
        .unwrap();
    assert_eq!(engine.gating_token(id), Ok(Some(addr("GOV"))));
    assert_eq!(engine.gating_token(id + 1), Err(Error::MissionNotFound));
    assert_eq!(
        engine.submit_feedback(id, addr("low"), "cid".to_string(), addr("USDC"), 10, 999),
        Err(Error::InsufficientGatingBalance)
    );
    assert!(engine.submissions().is_empty());
    assert_eq!(
        engine.submit_feedback(id, addr("exact"), "cid".to_string(), addr("USDC"), 10, 1000),
        Ok(deposit("USDC", "exact", 10))
    );
}

#[test]
fn submission_is_recorded_as_pending_with_its_stake() {
    let (mut engine, id) = with_mission(5);
    assert_eq!(engine.gating_token(id), Ok(None));
    assert_eq!(
        engine.submit_feedback(id, addr("hunter"), "QmFirst".to_string(), addr("USDC"), 25, 0),
        Ok(deposit("USDC", "hunter", 25))
    );
    assert_eq!(
        engine.get_submission(id, &addr("hunter")),
        Ok(Submission {
            mission_id: id,
            hunter: addr("hunter"),
            content_id: "QmFirst".to_string(),
            stake_token: addr("USDC"),
            stake_amount: 25,
            status: SubmissionStatus::Pending,
            stake_held: true,
        })
    );
    assert_eq!(
        engine.get_submission(id, &addr("other")),
        Err(Error::SubmissionNotFound)
    );
}

#[test]
fn second_submission_is_always_a_duplicate() {
    let (mut engine, id) = with_mission(5);
    submit(&mut engine, id, "hunter", 10).unwrap();
    assert_eq!(
        submit(&mut engine, id, "hunter", 10),
        Err(Error::DuplicateSubmission)
    );
    assert_eq!(
        engine.submit_feedback(id, addr("hunter"), "other".to_string(), addr("XLM"), 0, 0),
        Err(Error::DuplicateSubmission)
    );
    engine.pause_mission(id).unwrap();
    assert_eq!(
        submit(&mut engine, id, "hunter", 10),
        Err(Error::DuplicateSubmission)
    );
    assert_eq!(
        submit(&mut engine, id, "newcomer", 10),
        Err(Error::MissionNotOpen)
    );
    assert_eq!(engine.submissions().len(), 1);
}

#[test]
fn same_hunter_may_submit_to_another_mission() {
    let (mut engine, first) = with_mission(5);
    let (second, _) = engine
        .create_mission(
            addr("owner"),
            "Second".to_string(),
            "Description".to_string(),
            reward("XLM", 100),
            5,
            ungated(),
        )
        .unwrap();
    submit(&mut engine, first, "hunter", 10).unwrap();
    assert_eq!(
        submit(&mut engine, second, "hunter", 20),
        Ok(deposit("USDC", "hunter", 20))
    );
}

#[test]
fn update_replaces_only_the_content() {
    let (mut engine, id) = with_mission(5);
    submit(&mut engine, id, "hunter", 10).unwrap();
    submit(&mut engine, id, "other", 20).unwrap();
    assert_eq!(
        engine.update_submission(id, addr("hunter"), "QmUpdated".to_string()),
        Ok(())
    );
    let updated = engine.get_submission(id, &addr("hunter")).unwrap();
    assert_eq!(updated.content_id, "QmUpdated");
    assert_eq!(updated.stake_amount, 10);
    assert_eq!(updated.status, SubmissionStatus::Pending);
    assert!(updated.stake_held);
    assert_eq!(
        engine.get_submission(id, &addr("other")).unwrap().content_id,
        "cid"
    );
}

#[test]
fn update_is_rejected_in_the_stated_order() {
    let (mut engine, id) = with_mission(5);
    assert_eq!(
        engine.update_submission(id + 1, addr("hunter"), "x".to_string()),
        Err(Error::MissionNotFound)
    );
    assert_eq!(
        engine.update_submission(id, addr("hunter"), "x".to_string()),
        Err(Error::SubmissionNotFound)
    );
    submit(&mut engine, id, "hunter", 10).unwrap();
    engine.payout_participant(id, addr("hunter")).unwrap();
    assert_eq!(
        engine.update_submission(id, addr("hunter"), "x".to_string()),
        Err(Error::AlreadyResolved)
    );
    engine.pause_mission(id).unwrap();
    assert_eq!(
        engine.update_submission(id, addr("hunter"), "x".to_string()),
        Err(Error::MissionNotOpen)
    );
    assert_eq!(
        engine.update_submission(id, addr("nobody"), "x".to_string()),
        Err(Error::MissionNotOpen)
    );
}

#[test]
fn payout_pays_reward_then_stake() {
    let (mut engine, id) = with_mission(5);
    submit(&mut engine, id, "hunter", 10).unwrap();
    assert_eq!(
        engine.payout_participant(id, addr("hunter")),
        Ok(vec![release("XLM", "hunter", 100), release("USDC", "hunter", 10)])
    );
    let mission = engine.get_mission(id).unwrap();
    assert_eq!(mission.participants_count, 1);
    assert_eq!(mission.status, MissionStatus::Open);
    let paid = engine.get_submission(id, &addr("hunter")).unwrap();
    assert_eq!(paid.status, SubmissionStatus::Paid);
    assert!(!paid.stake_held);
}

#[test]
fn second_payout_is_already_resolved() {
    let (mut engine, id) = with_mission(5);
    submit(&mut engine, id, "hunter", 10).unwrap();
    engine.payout_participant(id, addr("hunter")).unwrap();
    assert_eq!(
        engine.payout_participant(id, addr("hunter")),
        Err(Error::AlreadyResolved)
    );
    submit(&mut engine, id, "other", 10).unwrap();
    engine.pause_mission(id).unwrap();
    engine.cancel_mission(id).unwrap();
    assert_eq!(
        engine.payout_participant(id, addr("hunter")),
        Err(Error::AlreadyResolved)
    );
    assert_eq!(
        engine.payout_participant(id, addr("other")),
        Err(Error::SubmissionNotFound)
    );
    assert_eq!(engine.get_mission(id).unwrap().participants_count, 1);
}

#[test]
fn payout_is_rejected_in_the_stated_order() {
    let (mut engine, id) = with_mission(1);
    assert_eq!(
        engine.payout_participant(id + 1, addr("hunter")),
        Err(Error::MissionNotFound)
    );
    assert_eq!(
        engine.payout_participant(id, addr("hunter")),
        Err(Error::SubmissionNotFound)
    );
    submit(&mut engine, id, "first", 10).unwrap();
    submit(&mut engine, id, "second", 10).unwrap();
    engine.payout_participant(id, addr("first")).unwrap();
    assert_eq!(
        engine.payout_participant(id, addr("first")),
        Err(Error::AlreadyResolved)
    );
    assert_eq!(
        engine.payout_participant(id, addr("second")),
        Err(Error::MissionFull)
    );
    assert_eq!(engine.get_mission(id).unwrap().participants_count, 1);
}

#[test]
fn paused_mission_still_pays_out() {
    let (mut engine, id) = with_mission(5);
    submit(&mut engine, id, "hunter", 10).unwrap();
    engine.pause_mission(id).unwrap();
    assert_eq!(
        engine.payout_participant(id, addr("hunter")),
        Ok(vec![release("XLM", "hunter", 100), release("USDC", "hunter", 10)])
    );
    assert_eq!(engine.get_mission(id).unwrap().status, MissionStatus::Paused);
}

#[test]
fn pause_and_resume() {
    let (mut engine, id) = with_mission(5);
    assert_eq!(engine.pause_mission(id), Ok(()));
    assert_eq!(engine.get_mission(id).unwrap().status, MissionStatus::Paused);
    assert_eq!(engine.pause_mission(id), Ok(()));
    assert_eq!(engine.get_mission(id).unwrap().status, MissionStatus::Paused);
    assert_eq!(engine.resume_mission(id), Ok(()));
    assert_eq!(engine.get_mission(id).unwrap().status, MissionStatus::Open);
    assert_eq!(submit(&mut engine, id, "hunter", 10).is_ok(), true);
    assert_eq!(engine.pause_mission(id + 1), Err(Error::MissionNotFound));
    assert_eq!(engine.resume_mission(0), Err(Error::MissionNotFound));
}

#[test]
fn cancelled_is_terminal() {
    let (mut engine, id) = with_mission(5);
    assert_eq!(
        engine.cancel_mission(id),
        Ok(vec![release("XLM", "owner", 500)])
    );
    assert_eq!(engine.cancel_mission(id), Err(Error::MissionNotOpen));
    assert_eq!(engine.pause_mission(id), Err(Error::MissionNotOpen));
    assert_eq!(engine.resume_mission(id), Err(Error::MissionNotOpen));
    assert_eq!(
        submit(&mut engine, id, "hunter", 10),
        Err(Error::MissionNotOpen)
    );
    assert_eq!(engine.get_mission(id).unwrap().status, MissionStatus::Cancelled);
    assert_eq!(engine.cancel_mission(id + 1), Err(Error::MissionNotFound));
}

#[test]
fn cancel_after_one_payout_refunds_the_rest() {
    let (mut engine, id) = with_mission(3);
    let (other, _) = engine
        .create_mission(
            addr("sponsor"),
            "Other".to_string(),
            "Description".to_string(),
            reward("XLM", 7),
            2,
            ungated(),
        )
        .unwrap();
    engine.set_treasury(addr("treasury"));
    submit(&mut engine, id, "paid", 10).unwrap();
    submit(&mut engine, id, "pending", 20).unwrap();
    submit(&mut engine, other, "elsewhere", 30).unwrap();
    submit(&mut engine, id, "slashed", 40).unwrap();
    submit(&mut engine, id, "waiting", 50).unwrap();
    engine.payout_participant(id, addr("paid")).unwrap();
    engine
        .slash_hunter_stake(id, addr("slashed"), addr("USDC"))
        .unwrap();

    assert_eq!(
        engine.cancel_mission(id),
        Ok(vec![
            release("XLM", "owner", 200),
            release("USDC", "pending", 20),
            release("USDC", "waiting", 50),
        ])
    );

    let left: Vec<&str> = engine
        .submissions()
        .iter()
        .map(|s| s.hunter.as_str())
        .collect();
    assert_eq!(left, vec!["paid", "elsewhere"]);
    let mut expected = HashMap::new();
    expected.insert("XLM".to_string(), 14);
    expected.insert("USDC".to_string(), 30);
    assert_eq!(accounted(&engine), expected);
    assert_eq!(engine.get_mission(other).unwrap().status, MissionStatus::Open);
}

#[test]
fn slash_forwards_the_stake_once() {
    let (mut engine, id) = with_mission(5);
    submit(&mut engine, id, "hunter", 50).unwrap();
    assert_eq!(
        engine.slash_hunter_stake(id, addr("hunter"), addr("USDC")),
        Err(Error::TreasuryNotSet)
    );
    engine.set_treasury(addr("first"));
    engine.set_treasury(addr("treasury"));
    assert_eq!(engine.get_treasury(), Ok(addr("treasury")));
    assert_eq!(
        engine.slash_hunter_stake(id, addr("hunter"), addr("XLM")),
        Err(Error::StakeNotFound)
    );
    assert_eq!(
        engine.slash_hunter_stake(id, addr("nobody"), addr("USDC")),
        Err(Error::StakeNotFound)
    );
    assert_eq!(
        engine.slash_hunter_stake(id + 1, addr("hunter"), addr("USDC")),
        Err(Error::StakeNotFound)
    );
    assert_eq!(
        engine.slash_hunter_stake(id, addr("hunter"), addr("USDC")),
        Ok(release("USDC", "treasury", 50))
    );
    assert_eq!(
        engine.slash_hunter_stake(id, addr("hunter"), addr("USDC")),
        Err(Error::StakeNotFound)
    );
    let slashed = engine.get_submission(id, &addr("hunter")).unwrap();
    assert_eq!(slashed.status, SubmissionStatus::Pending);
    assert!(!slashed.stake_held);
}

#[test]
fn payout_after_slash_pays_the_reward_only() {
    let (mut engine, id) = with_mission(5);
    engine.set_treasury(addr("treasury"));
    submit(&mut engine, id, "hunter", 50).unwrap();
    engine
        .slash_hunter_stake(id, addr("hunter"), addr("USDC"))
        .unwrap();
    assert_eq!(
        engine.payout_participant(id, addr("hunter")),
        Ok(vec![release("XLM", "hunter", 100)])
    );
    assert_eq!(
        engine.slash_hunter_stake(id, addr("hunter"), addr("USDC")),
        Err(Error::StakeNotFound)
    );
}

#[test]
fn transfers_match_the_records_after_every_step() {
    let mut engine = Engine::new();
    let mut escrow: HashMap<String, i128> = HashMap::new();
    assert_eq!(accounted(&engine), escrow);

    let (first, t) = engine
        .create_mission(
            addr("owner"),
            "First".to_string(),
            "Description".to_string(),
            reward("XLM", 100),
            3,
            ungated(),
        )
        .unwrap();
    book(&mut escrow, &[t]);
    assert_eq!(accounted(&engine), escrow);
    assert_eq!(escrow["XLM"], 300);

    let (second, t) = engine
        .create_mission(
            addr("sponsor"),
            "Second".to_string(),
            "Description".to_string(),
            reward("USDC", 40),
            2,
            gated("GOV", 5),
        )
        .unwrap();
    book(&mut escrow, &[t]);
    assert_eq!(accounted(&engine), escrow);

    for (mission, hunter, stake, balance) in [
        (first, "ann", 10, 0),
        (first, "bob", 20, 0),
        (second, "ann", 30, 5),
        (second, "cid", 40, 9),
    ] {
        let t = engine
            .submit_feedback(mission, addr(hunter), "cid".to_string(), addr("USDC"), stake, balance)
            .unwrap();
        book(&mut escrow, &[t]);
        assert_eq!(accounted(&engine), escrow);
    }
    assert_eq!(escrow["USDC"], 80 + 100);

    engine.set_treasury(addr("treasury"));
    engine.pause_mission(second).unwrap();
    engine
        .update_submission(first, addr("ann"), "new".to_string())
        .unwrap();
    assert_eq!(accounted(&engine), escrow);

    let ts = engine.payout_participant(first, addr("ann")).unwrap();
    book(&mut escrow, &ts);
    assert_eq!(accounted(&engine), escrow);
    assert_eq!(escrow["XLM"], 200);

    let t = engine
        .slash_hunter_stake(second, addr("cid"), addr("USDC"))
        .unwrap();
    book(&mut escrow, &[t]);
    assert_eq!(accounted(&engine), escrow);

    let ts = engine.payout_participant(second, addr("cid")).unwrap();
    book(&mut escrow, &ts);
    assert_eq!(accounted(&engine), escrow);

    let ts = engine.cancel_mission(first).unwrap();
    book(&mut escrow, &ts);
    assert_eq!(accounted(&engine), escrow);
    assert_eq!(escrow.get("XLM"), None);

    let ts = engine.cancel_mission(second).unwrap();
    book(&mut escrow, &ts);
    assert_eq!(accounted(&engine), escrow);
    assert!(escrow.is_empty());
}

#[test]
fn rejected_operations_change_nothing() {
    let (mut engine, id) = with_mission(1);
    submit(&mut engine, id, "hunter", 10).unwrap();
    let missions = engine.missions().clone();
    let submissions = engine.submissions().clone();

    assert!(submit(&mut engine, id, "hunter", 10).is_err());
    assert!(submit(&mut engine, id, "other", 0).is_err());
    assert!(submit(&mut engine, id + 1, "other", 10).is_err());
    assert!(engine
        .update_submission(id, addr("other"), "x".to_string())
        .is_err());
    assert!(engine.payout_participant(id, addr("other")).is_err());
    assert!(engine
        .slash_hunter_stake(id, addr("hunter"), addr("USDC"))
        .is_err());
    assert!(engine.cancel_mission(id + 1).is_err());
    assert!(engine.pause_mission(id + 1).is_err());

    assert_eq!(engine.missions(), &missions);
    assert_eq!(engine.submissions(), &submissions);
    assert_eq!(engine.get_treasury(), Err(Error::TreasuryNotSet));
}

#[test]
fn addresses_compare_by_key() {
    let a = Address::new("GABC".to_string());
    let b = Address::from_str("GABC");
    let c = Address::from_str("GABD");
    assert!(a.same(&b));
    assert!(!a.same(&c));
    assert_eq!(a.as_str(), "GABC");
    assert_eq!(a.clone(), b);
}

#[test]
fn error_codes_are_stable() {
    let codes: Vec<u32> = [
        Error::MissionNotFound,
        Error::MissionFull,
        Error::DuplicateSubmission,
        Error::InvalidReward,
        Error::AlreadyResolved,
        Error::MissionNotOpen,
        Error::SubmissionNotFound,
        Error::InvalidStakeAmount,
        Error::TreasuryNotSet,
        Error::StakeNotFound,
        Error::InsufficientGatingBalance,
    ]
    .iter()
    .map(|e| e.code())
    .collect();
    assert_eq!(codes, vec![1, 2, 4, 7, 9, 10, 11, 13, 14, 15, 16]);
}

fn sample_mission(id: u64) -> Mission {
    Mission {
        id,
        owner: addr("owner"),
        title: "Title".to_string(),
        description: "Description".to_string(),
        reward_token: addr("XLM"),
        reward_amount: 100,
        max_participants: 3,
        participants_count: 1,
        status: MissionStatus::Open,
        min_asset_token: None,
        min_asset_amount: 0,
    }
}

fn sample_submission(mission_id: u64, hunter: &str) -> Submission {
    Submission {
        mission_id,
        hunter: addr(hunter),
        content_id: "cid".to_string(),
        stake_token: addr("USDC"),
        stake_amount: 10,
        status: SubmissionStatus::Pending,
        stake_held: true,
    }
}

#[test]
fn restore_brings_back_what_was_stored() {
    let (mut engine, id) = with_mission(3);
    engine.set_treasury(addr("treasury"));
    submit(&mut engine, id, "ann", 10).unwrap();
    submit(&mut engine, id, "bob", 20).unwrap();
    engine.payout_participant(id, addr("ann")).unwrap();

    let mut restored = Engine::restore(
        engine.missions().clone(),
        engine.submissions().clone(),
        engine.get_treasury().ok(),
    )
    .unwrap();
    assert_eq!(restored.missions(), engine.missions());
    assert_eq!(restored.submissions(), engine.submissions());
    assert_eq!(restored.get_treasury(), Ok(addr("treasury")));
    assert_eq!(
        restored.payout_participant(id, addr("ann")),
        Err(Error::AlreadyResolved)
    );
    assert_eq!(
        restored.cancel_mission(id),
        Ok(vec![release("XLM", "owner", 200), release("USDC", "bob", 20)])
    );
}

#[test]
fn restore_refuses_inconsistent_records() {
    let ok = |missions: Vec<Mission>, submissions: Vec<Submission>| {
        Engine::restore(missions, submissions, None).is_some()
    };
    assert!(ok(vec![], vec![]));
    assert!(ok(
        vec![sample_mission(1), sample_mission(2)],
        vec![sample_submission(1, "ann"), sample_submission(2, "ann")]
    ));

    // identities out of step
    assert!(!ok(vec![sample_mission(2)], vec![]));
    assert!(!ok(vec![sample_mission(1), sample_mission(1)], vec![]));
    // a reward that is not positive
    let mut mission = sample_mission(1);
    mission.reward_amount = 0;
    assert!(!ok(vec![mission], vec![]));
    // more paid than slots
    let mut mission = sample_mission(1);
    mission.participants_count = 4;
    assert!(!ok(vec![mission], vec![]));
    // a pool that cannot be written down
    let mut mission = sample_mission(1);
    mission.reward_amount = i128::MAX;
    assert!(!ok(vec![mission], vec![]));
    // a gating asset without a positive threshold
    let mut mission = sample_mission(1);
    mission.min_asset_token = Some(addr("GOV"));
    assert!(!ok(vec![mission], vec![]));
    // a submission for a mission that does not exist
    assert!(!ok(vec![sample_mission(1)], vec![sample_submission(2, "ann")]));
    assert!(!ok(vec![sample_mission(1)], vec![sample_submission(0, "ann")]));
    // a stake that is not positive
    let mut submission = sample_submission(1, "ann");
    submission.stake_amount = 0;
    assert!(!ok(vec![sample_mission(1)], vec![submission]));
    // a paid submission whose stake is still held
    let mut submission = sample_submission(1, "ann");
    submission.status = SubmissionStatus::Paid;
    assert!(!ok(vec![sample_mission(1)], vec![submission]));
    // a pending submission of a cancelled mission
    let mut mission = sample_mission(1);
    mission.status = MissionStatus::Cancelled;
    assert!(!ok(vec![mission], vec![sample_submission(1, "ann")]));
    // two submissions of one hunter for one mission
    assert!(!ok(
        vec![sample_mission(1)],
        vec![
            sample_submission(1, "ann"),
            sample_submission(1, "bob"),
            sample_submission(1, "ann")
        ]
    ));
}

#[test]
fn stake_and_threshold_must_be_positive() {
    let (mut engine, id) = with_mission(5);
    assert_eq!(
        submit(&mut engine, id, "hunter", 0),
        Err(Error::InvalidStakeAmount)
    );
    assert_eq!(
        submit(&mut engine, id, "hunter", -10),
        Err(Error::InvalidStakeAmount)
    );
    assert_eq!(
        submit(&mut engine, id, "hunter", 1),
        Ok(deposit("USDC", "hunter", 1))
    );
    for threshold in [0, -100] {
        assert_eq!(
            engine.create_mission(
                addr("owner"),
                "Title".to_string(),
                "Description".to_string(),
                reward("XLM", 100),
                5,
                gated("GOV", threshold),
            ),
            Err(Error::InvalidStakeAmount)
        );
    }
    assert_eq!(engine.missions().len(), 1);
}

#[test]
fn largest_pool_that_can_be_written_down() {
    let mut engine = Engine::new();
    let per_slot = i128::MAX / 3;
    assert_eq!(
        engine.create_mission(
            addr("owner"),
            "Title".to_string(),
            "Description".to_string(),
            reward("XLM", per_slot),
            3,
            ungated(),
        ),
        Ok((1, deposit("XLM", "owner", per_slot * 3)))
    );
    submit(&mut engine, 1, "hunter", i128::MAX).unwrap();
    assert_eq!(
        engine.payout_participant(1, addr("hunter")),
        Ok(vec![
            release("XLM", "hunter", per_slot),
            release("USDC", "hunter", i128::MAX)
        ])
    );
    assert_eq!(
        engine.cancel_mission(1),
        Ok(vec![release("XLM", "owner", per_slot * 2)])
    );
}
