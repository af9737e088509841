use hyveos::provider_choice::{
    after_stage, best_answer, download_progress, partition_providers, provider_score, split_top,
    ProviderStage, StageOutcome, TOP_K,
};

#[test]
fn neighbours_come_first_in_the_order_given() {
    let providers = vec![vec![1], vec![2], vec![3], vec![4]];
    let neighbours = vec![vec![3], vec![9], vec![1]];
    let (near, far) = partition_providers(&providers, &neighbours);
    assert_eq!(near, vec![vec![1], vec![3]]);
    assert_eq!(far, vec![vec![2], vec![4]]);
}

#[test]
fn only_the_first_ten_others_are_scored() {
    assert_eq!(TOP_K, 10);
    let others: Vec<Vec<u8>> = (0..13u8).map(|i| vec![i]).collect();
    let (top, rest) = split_top(others);
    assert_eq!(top.len(), 10);
    assert_eq!(rest, vec![vec![10], vec![11], vec![12]]);
    let (top, rest) = split_top(vec![vec![1]]);
    assert_eq!(top, vec![vec![1]]);
    assert!(rest.is_empty());
}

#[test]
fn best_is_the_first_highest_score() {
    assert_eq!(provider_score(3, 4), 7);
    assert_eq!(best_answer(&vec![None, Some(5), Some(9), Some(9), Some(2)]), Some(2));
    assert_eq!(best_answer(&vec![None, None]), None);
    assert_eq!(best_answer(&vec![]), None);
}

#[test]
fn stages_fall_through_to_no_providers() {
    assert_eq!(after_stage(ProviderStage::Neighbours, &vec![Some(1), Some(4)]), StageOutcome::Chosen(1));
    assert_eq!(after_stage(ProviderStage::Neighbours, &vec![None]), StageOutcome::Next(ProviderStage::TopOthers));
    assert_eq!(after_stage(ProviderStage::TopOthers, &vec![]), StageOutcome::Next(ProviderStage::RestOthers));
    assert_eq!(after_stage(ProviderStage::RestOthers, &vec![None, Some(0), Some(8)]), StageOutcome::Chosen(1));
    assert_eq!(after_stage(ProviderStage::RestOthers, &vec![None, None]), StageOutcome::NoProviders);
}

#[test]
fn progress_counts_hundredths() {
    assert_eq!(download_progress(50, 200), 25);
    assert_eq!(download_progress(3, 3), 100);
}

#[test]
fn a_provider_found_twice_is_asked_once() {
    let providers = vec![vec![2], vec![1], vec![2], vec![3], vec![1]];
    let neighbours = vec![vec![1]];
    let (near, far) = partition_providers(&providers, &neighbours);
    assert_eq!(near, vec![vec![1]]);
    assert_eq!(far, vec![vec![2], vec![3]]);
}
