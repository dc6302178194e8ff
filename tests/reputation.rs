use opensquare::reputation::{
    Behavior, Event, BountyRemarkCollaborationResult, BountyResolveCollaborationResult,
    Module as Reputation, ReputationBuilder,
};

#[test]
fn add_behavior_score_by_behavior_works() {
    let mut reputation = Reputation::new();
    let account = 1;
    reputation.add_behavior_score_by_behavior(
        &account,
        &Behavior::BountyResolve(BountyResolveCollaborationResult::Success),
    );

    let score = reputation.behavior_score(&account);
    assert_eq!(10, score);
}

#[test]
fn get_behavior_score_works() {
    let score = Reputation::get_behavior_score(&Behavior::BountyResolve(
        BountyResolveCollaborationResult::Fail,
    ));
    assert_eq!(-2, score);
}

#[test]
fn every_behavior_has_its_fixed_score() {
    let cases = [
        (Behavior::BountyResolve(BountyResolveCollaborationResult::Success), 10),
        (Behavior::BountyResolve(BountyResolveCollaborationResult::Fail), -2),
        (Behavior::BountyRemark(BountyRemarkCollaborationResult::Bad), -2),
        (Behavior::BountyRemark(BountyRemarkCollaborationResult::NotGood), 0),
        (Behavior::BountyRemark(BountyRemarkCollaborationResult::Fine), 1),
        (Behavior::BountyRemark(BountyRemarkCollaborationResult::Good), 3),
        (Behavior::BountyRemark(BountyRemarkCollaborationResult::Perfect), 5),
    ];
    for (behavior, score) in cases {
        assert_eq!(Reputation::get_behavior_score(&behavior), score);
    }
}

#[test]
fn scores_accumulate_per_account() {
    let mut reputation = Reputation::new();
    reputation.add_behavior_score(&7, 4);
    reputation.add_behavior_score(&7, -10);
    reputation.add_behavior_score(&8, 3);
    assert_eq!(reputation.behavior_score(&7), -6);
    assert_eq!(reputation.behavior_score(&8), 3);
    assert_eq!(reputation.behavior_score(&9), 0);
    assert_eq!(
        reputation.events().clone(),
        vec![
            Event::ReputationAdded(7, 4),
            Event::ReputationAdded(7, -6),
            Event::ReputationAdded(8, 3),
        ]
    );
}

#[test]
fn scores_saturate_at_the_bounds() {
    let mut reputation = Reputation::new();
    reputation.add_behavior_score(&1, i128::MAX);
    reputation.add_behavior_score(&1, 5);
    assert_eq!(reputation.behavior_score(&1), i128::MAX);
    reputation.add_behavior_score(&2, i128::MIN);
    reputation.add_behavior_score(&2, -1);
    assert_eq!(reputation.behavior_score(&2), i128::MIN);
}
