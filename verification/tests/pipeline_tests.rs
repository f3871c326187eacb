use knn_classifier::dataset::labels_of;
use knn_classifier::errors::Error;
use knn_classifier::eval::{accuracy, confusion_matrix, ConfusionMatrix};
use knn_classifier::knn::{classify, knn, l1_distance, l2_distance, Distance};
use knn_classifier::normalize::{normalize, normalize_dataset};
use knn_classifier::split::split_dataset;
use knn_classifier::stats::{mean, variance};

#[test]
fn l1_distance_is_sum_of_absolute_differences() {
    let a: Vec<i64> = vec![0, 0, 5];
    let b: Vec<i64> = vec![3, 4, 5];
    assert_eq!(l1_distance(&a, &b, 3), 7);
    assert_eq!(l1_distance(&a, &b, 2), 7);
    assert_eq!(l1_distance(&b, &a, 3), 7);
}

#[test]
fn l2_distance_is_rounded_down_euclidean() {
    let a: Vec<i64> = vec![0, 0];
    let b: Vec<i64> = vec![3, 4];
    assert_eq!(l2_distance(&a, &b, 2), 5);
    let c: Vec<i64> = vec![1, 1];
    assert_eq!(l2_distance(&a, &c, 2), 1);
}

#[test]
fn normalize_column_exact() {
    let xs: Vec<i64> = vec![1000, 3000];
    assert_eq!(mean(&xs), Ok(2000));
    assert_eq!(variance(&xs, 2000), Ok(1000000));
    let out = normalize(&xs, 2000, 1000, 1000).unwrap();
    assert_eq!(out, vec![-1000, 1000]);
}

#[test]
fn normalize_with_zero_deviation_fails() {
    let xs: Vec<i64> = vec![5, 5, 5];
    assert_eq!(normalize(&xs, 5, 0, 1000), Err(Error::DivideByZero));
}

#[test]
fn normalized_column_has_near_zero_mean_and_scaled_variance() {
    let xs: Vec<i64> = vec![1000, 3000];
    let out = normalize(&xs, 2000, 1000, 1000).unwrap();
    let total: i64 = out.iter().sum();
    assert_eq!(total, 0);
    assert_eq!(mean(&out), Ok(0));
    assert_eq!(variance(&out, 0), Ok(1000000));
}

#[test]
fn normalize_dataset_rewrites_features_and_keeps_labels() {
    let records: Vec<Vec<i64>> = vec![vec![0, 1], vec![10, -1]];
    let out = normalize_dataset(&records, 1, 10).unwrap();
    assert_eq!(out, vec![vec![-10, 1], vec![10, -1]]);
}

#[test]
fn normalize_dataset_of_empty_dataset_fails() {
    let records: Vec<Vec<i64>> = Vec::new();
    assert_eq!(normalize_dataset(&records, 1, 1000), Err(Error::EmptyInput));
}

#[test]
fn normalize_dataset_with_constant_column_fails() {
    let records: Vec<Vec<i64>> = vec![vec![4, 0, 1], vec![4, 10, -1]];
    assert_eq!(normalize_dataset(&records, 2, 1000), Err(Error::DivideByZero));
}

#[test]
fn split_keeps_order_and_loses_nothing() {
    let records: Vec<Vec<i64>> = vec![
        vec![1, 1],
        vec![2, -1],
        vec![3, 1],
        vec![4, -1],
        vec![5, 1],
    ];
    let original = records.clone();
    let (train, test) = split_dataset(records, 3, 5);
    assert_eq!(train.len(), 3);
    assert_eq!(test.len(), 2);
    let mut joined = train.clone();
    joined.extend(test.clone());
    assert_eq!(joined, original);
}

#[test]
fn split_rounds_the_training_count_down() {
    let records: Vec<Vec<i64>> = vec![vec![1, 1], vec![2, -1], vec![3, 1], vec![4, -1], vec![5, 1]];
    let (train, test) = split_dataset(records, 1, 2);
    assert_eq!(train.len(), 2);
    assert_eq!(test.len(), 3);
}

#[test]
fn nearest_neighbor_wins_with_k_one() {
    let training: Vec<Vec<i64>> = vec![vec![0, 1], vec![10, -1]];
    let test: Vec<Vec<i64>> = vec![vec![1, 1]];
    let preds = knn(1, &training, &test, Distance::L1, 1).unwrap();
    assert_eq!(preds, vec![1]);
}

#[test]
fn tie_vote_resolves_to_positive() {
    let training: Vec<Vec<i64>> = vec![vec![0, 1], vec![10, -1]];
    let test: Vec<Vec<i64>> = vec![vec![1, 1]];
    let preds = knn(2, &training, &test, Distance::L1, 1).unwrap();
    assert_eq!(preds, vec![1]);
}

#[test]
fn repeated_classification_gives_the_same_prediction() {
    let training: Vec<Vec<i64>> = vec![vec![2, 7, 1], vec![5, 1, -1], vec![4, 4, 1]];
    let record: Vec<i64> = vec![3, 3, -1];
    let first = classify(&training, &record, 2, Distance::L2, 2);
    let second = classify(&training, &record, 2, Distance::L2, 2);
    assert_eq!(first, second);
}

#[test]
fn oversized_k_votes_with_every_training_label() {
    let training: Vec<Vec<i64>> = vec![vec![0, 1], vec![10, -1], vec![20, -1]];
    let test: Vec<Vec<i64>> = vec![vec![0, 1]];
    let preds = knn(9, &training, &test, Distance::L1, 1).unwrap();
    assert_eq!(preds, vec![-1]);
}

#[test]
fn equal_distances_break_ties_by_training_order() {
    let training_a: Vec<Vec<i64>> = vec![vec![0, 1], vec![2, -1]];
    let training_b: Vec<Vec<i64>> = vec![vec![2, -1], vec![0, 1]];
    let test: Vec<Vec<i64>> = vec![vec![1, 1]];
    assert_eq!(knn(1, &training_a, &test, Distance::L1, 1).unwrap(), vec![1]);
    assert_eq!(knn(1, &training_b, &test, Distance::L1, 1).unwrap(), vec![-1]);
}

#[test]
fn knn_with_zero_k_fails() {
    let training: Vec<Vec<i64>> = vec![vec![0, 1]];
    let test: Vec<Vec<i64>> = vec![vec![1, 1]];
    assert_eq!(knn(0, &training, &test, Distance::L1, 1), Err(Error::InvalidK));
}

#[test]
fn knn_with_empty_training_set_fails() {
    let training: Vec<Vec<i64>> = Vec::new();
    let test: Vec<Vec<i64>> = vec![vec![1, 1]];
    assert_eq!(knn(3, &training, &test, Distance::L1, 1), Err(Error::EmptyTrainingSet));
}

#[test]
fn labels_of_reads_the_label_column() {
    let records: Vec<Vec<i64>> = vec![vec![0, 1], vec![2, -1], vec![4, 1]];
    assert_eq!(labels_of(&records, 1), vec![1, -1, 1]);
}

#[test]
fn confusion_matrix_counts_each_pair_once() {
    let actuals: Vec<i64> = vec![1, 1, -1, -1, 0];
    let predicted: Vec<i64> = vec![1, -1, 1, -1, 1];
    let cm = confusion_matrix(&actuals, &predicted);
    assert_eq!(cm.true_pos, 1);
    assert_eq!(cm.false_neg, 1);
    assert_eq!(cm.false_pos, 1);
    assert_eq!(cm.true_neg, 1);
    let valid: usize = actuals
        .iter()
        .zip(predicted.iter())
        .filter(|(a, p)| (**a == 1 || **a == -1) && (**p == 1 || **p == -1))
        .count();
    assert_eq!(cm.true_pos + cm.false_neg + cm.false_pos + cm.true_neg, valid);
}

#[test]
fn accuracy_is_the_exact_ratio() {
    let cm = ConfusionMatrix { true_pos: 8, false_neg: 2, false_pos: 1, true_neg: 9 };
    let (correct, total) = accuracy(&cm).unwrap();
    assert_eq!(correct, 17);
    assert_eq!(total, 20);
    assert_eq!(correct as f64 / total as f64, 0.85);
}

#[test]
fn accuracy_of_empty_evaluation_fails() {
    let cm = ConfusionMatrix { true_pos: 0, false_neg: 0, false_pos: 0, true_neg: 0 };
    assert_eq!(accuracy(&cm), Err(Error::EmptyEvaluationSet));
}

#[test]
fn whole_pipeline_on_a_small_dataset() {
    let records: Vec<Vec<i64>> = vec![
        vec![1000, 1],
        vec![1200, 1],
        vec![900, 1],
        vec![5000, -1],
        vec![5300, -1],
        vec![1100, 1],
        vec![5100, -1],
        vec![4900, -1],
    ];
    let normalized = normalize_dataset(&records, 1, 1000).unwrap();
    let (train, test) = split_dataset(normalized, 3, 4);
    assert_eq!(train.len(), 6);
    assert_eq!(test.len(), 2);
    let preds = knn(3, &train, &test, Distance::L1, 1).unwrap();
    let actuals = labels_of(&test, 1);
    let cm = confusion_matrix(&actuals, &preds);
    let (correct, total) = accuracy(&cm).unwrap();
    assert_eq!(total, 2);
    assert_eq!(correct, 2);
    assert_eq!(preds, vec![-1, -1]);
}
