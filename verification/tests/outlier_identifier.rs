use outliers::{DataValue, KValue, OutlierError, OutlierIdentifier};

fn nums(values: &[i64]) -> Vec<DataValue> {
    let mut out: Vec<DataValue> = Vec::new();
    for v in values {
        out.push(DataValue::Num(*v));
    }
    out
}

#[test]
fn get_outliers_needs_sorted_nan_set() {
    let data = vec![DataValue::Nan, DataValue::Nan];
    let outlier_identifier = OutlierIdentifier::new(data, false);
    let results_tuple = outlier_identifier.get_outliers();

    assert!(matches!(results_tuple, Err(OutlierError::ContainsNans)));
}

#[test]
fn get_outliers_is_sorted_nan_set() {
    // 3.0, 2.9, 2.8, 33.3 held exactly in tenths, then two NaN entries.
    let data = vec![
        DataValue::Num(30),
        DataValue::Num(29),
        DataValue::Num(28),
        DataValue::Num(333),
        DataValue::Nan,
        DataValue::Nan,
    ];
    let outlier_identifier = OutlierIdentifier::new(data, true);
    let results_tuple = outlier_identifier.get_outliers();

    assert!(matches!(results_tuple, Err(OutlierError::ContainsNans)));
}

#[test]
fn get_outliers_empty_data_set() {
    let data: Vec<DataValue> = vec![];
    let outlier_identifier = OutlierIdentifier::new(data, true);
    let results_tuple = outlier_identifier.get_outliers().unwrap();

    assert_eq!(results_tuple.0, Vec::<i64>::new());
    assert_eq!(results_tuple.1, Vec::<i64>::new());
    assert_eq!(results_tuple.2, Vec::<i64>::new());
}

#[test]
fn get_outliers_set_of_one() {
    let data = nums(&[30]);
    let outlier_identifier = OutlierIdentifier::new(data, true);
    let results_tuple = outlier_identifier.get_outliers().unwrap();

    assert_eq!(results_tuple.0, Vec::<i64>::new());
    assert_eq!(results_tuple.1, vec![30]);
    assert_eq!(results_tuple.2, Vec::<i64>::new());
}

#[test]
fn get_outliers_set_of_two() {
    let data = nums(&[30, 90]);
    let outlier_identifier = OutlierIdentifier::new(data, true);
    let results_tuple = outlier_identifier.get_outliers().unwrap();

    assert_eq!(results_tuple.0, Vec::<i64>::new());
    assert_eq!(results_tuple.1, vec![30, 90]);
    assert_eq!(results_tuple.2, Vec::<i64>::new());
}

#[test]
fn get_outliers_none() {
    let data = nums(&[1, 2, 4, 10]);
    let outlier_identifier = OutlierIdentifier::new(data, true);
    let results_tuple = outlier_identifier.get_outliers().unwrap();

    assert_eq!(results_tuple.0, Vec::<i64>::new());
    assert_eq!(results_tuple.1, vec![1, 2, 4, 10]);
    assert_eq!(results_tuple.2, Vec::<i64>::new());
}

#[test]
fn get_outliers_1() {
    let data = nums(&[0, 3, 3, 3, 11, 12, 13, 15, 19, 20, 29, 40, 79]);
    let outlier_identifier = OutlierIdentifier::new(data, true);
    let results_tuple = outlier_identifier.get_outliers().unwrap();

    assert_eq!(results_tuple.0, Vec::<i64>::new());
    assert_eq!(
        results_tuple.1,
        vec![0, 3, 3, 3, 11, 12, 13, 15, 19, 20, 29, 40]
    );
    assert_eq!(results_tuple.2, vec![79]);
}

#[test]
fn get_outliers_negative_1() {
    // 29.5, -3.79, 15.0, 11.47, 3.6, 3.6, 19.0, 79.37, 40.7, -23.3, 12.0,
    // 20.113, 13.39 — held exactly in thousandths.
    let data = nums(&[
        29500, -3790, 15000, 11470, 3600, 3600, 19000, 79370, 40700, -23300, 12000, 20113, 13390,
    ]);
    let outlier_identifier = OutlierIdentifier::new(data, false);
    let results_tuple = outlier_identifier.get_outliers().unwrap();

    assert_eq!(results_tuple.0, Vec::<i64>::new());
    assert_eq!(
        results_tuple.1,
        vec![-23300, -3790, 3600, 3600, 11470, 12000, 13390, 15000, 19000, 20113, 29500, 40700]
    );
    assert_eq!(results_tuple.2, vec![79370]);
}

#[test]
fn get_outliers_negative_2() {
    // -62.3, 67.9, 71.02, 43.3, 51.7, 65.43, 67.23 — held exactly in
    // hundredths.
    let data = nums(&[-6230, 6790, 7102, 4330, 5170, 6543, 6723]);
    let outlier_identifier = OutlierIdentifier::new(data, false);
    let results_tuple = outlier_identifier.get_outliers().unwrap();

    assert_eq!(results_tuple.0, vec![-6230]);
    assert_eq!(results_tuple.1, vec![4330, 5170, 6543, 6723, 6790, 7102]);
    assert_eq!(results_tuple.2, Vec::<i64>::new());
}

#[test]
fn negative_k_value_error() {
    let data = nums(&[30]);
    let outlier_identifier = OutlierIdentifier::new(data, true).with_k_value(KValue::new(-3, 1));
    let results_tuple = outlier_identifier.get_outliers();

    assert!(matches!(results_tuple, Err(OutlierError::NegativeKValue)));
}

#[test]
fn has_outliers_false() {
    let data = nums(&[1, 2, 4, 10]);
    let has_outliers = OutlierIdentifier::new(data, true).has_outliers().unwrap();

    assert!(!has_outliers);
}

#[test]
fn has_outliers_true() {
    let data = nums(&[-6230, 6790, 7102, 4330, 5170, 6543, 6723]);
    let has_outliers = OutlierIdentifier::new(data, true).has_outliers().unwrap();

    assert!(has_outliers);
}

#[test]
fn two_values_unsorted_are_both_typical() {
    // Quartiles (10, 11, 12) give an interquartile range of 2 and fences
    // (10 - 3, 12 + 3): both values are non-outliers.
    let data = nums(&[12, 10]);
    let results_tuple = OutlierIdentifier::new(data, false).get_outliers().unwrap();

    assert_eq!(results_tuple.0, Vec::<i64>::new());
    assert_eq!(results_tuple.1, vec![10, 12]);
    assert_eq!(results_tuple.2, Vec::<i64>::new());
}

#[test]
fn value_on_fence_is_not_an_outlier() {
    // Quartiles of [0, 4, 8, 12] are (2, 6, 10); with k = 1/4 the fences are
    // exactly 0 and 12, so the extreme values sit on the fences and stay
    // non-outliers.
    let data = nums(&[0, 4, 8, 12]);
    let results_tuple = OutlierIdentifier::new(data, true)
        .with_k_value(KValue::new(1, 4))
        .get_outliers()
        .unwrap();

    assert_eq!(results_tuple.0, Vec::<i64>::new());
    assert_eq!(results_tuple.1, vec![0, 4, 8, 12]);
    assert_eq!(results_tuple.2, Vec::<i64>::new());
}

#[test]
fn wider_multiplier_flags_no_new_outliers() {
    // With k = 0 the fences are the quartiles themselves and the extreme
    // values fall outside; widening to the default k = 3/2 absorbs them.
    let narrow = OutlierIdentifier::new(nums(&[0, 4, 8, 12]), true)
        .with_k_value(KValue::new(0, 1))
        .get_outliers()
        .unwrap();
    let wide = OutlierIdentifier::new(nums(&[0, 4, 8, 12]), true)
        .get_outliers()
        .unwrap();

    assert_eq!(narrow.0, vec![0]);
    assert_eq!(narrow.1, vec![4, 8]);
    assert_eq!(narrow.2, vec![12]);
    assert_eq!(wide.0, Vec::<i64>::new());
    assert_eq!(wide.1, vec![0, 4, 8, 12]);
    assert_eq!(wide.2, Vec::<i64>::new());
    assert!(narrow.1.len() <= wide.1.len());
}

#[test]
fn partition_counts_every_element_once() {
    let data = nums(&[29500, -3790, 15000, 11470, 3600, 3600, 19000, 79370, 40700]);
    let n = data.len();
    let results_tuple = OutlierIdentifier::new(data, false).get_outliers().unwrap();

    assert_eq!(
        results_tuple.0.len() + results_tuple.1.len() + results_tuple.2.len(),
        n
    );
}

#[test]
fn unsorted_run_matches_sorted_run() {
    let unsorted = OutlierIdentifier::new(nums(&[-6230, 6790, 7102, 4330, 5170, 6543, 6723]), false)
        .get_outliers()
        .unwrap();
    let sorted = OutlierIdentifier::new(nums(&[-6230, 4330, 5170, 6543, 6723, 6790, 7102]), true)
        .get_outliers()
        .unwrap();

    assert_eq!(unsorted.0, sorted.0);
    assert_eq!(unsorted.1, sorted.1);
    assert_eq!(unsorted.2, sorted.2);
}

#[test]
fn nan_is_rejected_whatever_the_flag_or_company() {
    let lone = OutlierIdentifier::new(vec![DataValue::Nan], true).get_outliers();
    let mixed = OutlierIdentifier::new(
        vec![DataValue::Num(1), DataValue::Nan, DataValue::Num(2)],
        false,
    )
    .get_outliers();

    assert!(matches!(lone, Err(OutlierError::ContainsNans)));
    assert!(matches!(mixed, Err(OutlierError::ContainsNans)));
}

#[test]
fn has_outliers_agrees_with_get_outliers() {
    let with_outlier = nums(&[0, 3, 3, 3, 11, 12, 13, 15, 19, 20, 29, 40, 79]);
    let without_outlier = nums(&[1, 2, 4, 10]);

    let partition = OutlierIdentifier::new(with_outlier.clone(), true)
        .get_outliers()
        .unwrap();
    let verdict = OutlierIdentifier::new(with_outlier, true)
        .has_outliers()
        .unwrap();
    assert_eq!(verdict, partition.0.len() + partition.2.len() > 0);

    let partition = OutlierIdentifier::new(without_outlier.clone(), true)
        .get_outliers()
        .unwrap();
    let verdict = OutlierIdentifier::new(without_outlier, true)
        .has_outliers()
        .unwrap();
    assert_eq!(verdict, partition.0.len() + partition.2.len() > 0);
}

#[test]
fn typical_usage_partitions_sample() {
    let data = nums(&[10, 12, 11, 15, 11, 14, 13, 17, 12, 22, 14, 11]);
    let results_tuple = OutlierIdentifier::new(data, false).get_outliers().unwrap();

    assert_eq!(results_tuple.0, Vec::<i64>::new());
    assert_eq!(
        results_tuple.1,
        vec![10, 11, 11, 11, 12, 12, 13, 14, 14, 15, 17]
    );
    assert_eq!(results_tuple.2, vec![22]);
}

#[test]
fn negative_k_takes_precedence_over_nan() {
    let data = vec![DataValue::Nan];
    let result = OutlierIdentifier::new(data, false)
        .with_k_value(KValue::new(-1, 2))
        .get_outliers();

    assert!(matches!(result, Err(OutlierError::NegativeKValue)));
}
