use outliers::helper_items::{get_error_message, get_quartile_values, median, ErrorMessage};

// Quartile values are returned in half-units: each expected number below is
// twice the quartile, so that the mean of two middle elements stays exact.

#[test]
fn get_quartile_values_empty_set() {
    let data: Vec<i64> = vec![];
    let quartile_values_result = get_quartile_values(&data);

    assert!(quartile_values_result.is_err());
}

#[test]
fn get_quartile_values_set_of_one() {
    let data: Vec<i64> = vec![10];
    let quartile_values_result = get_quartile_values(&data);

    assert!(quartile_values_result.is_err());
}

#[test]
fn get_quartile_values_set_of_two() {
    let data: Vec<i64> = vec![10, 12];
    let quartile_values_result = get_quartile_values(&data);

    // (10, 11, 12), doubled.
    assert_eq!(quartile_values_result, Ok((20, 22, 24)));
}

#[test]
fn get_quartile_values_set_of_three() {
    let data: Vec<i64> = vec![10, 11, 12];
    let quartile_values_result = get_quartile_values(&data);

    // (10, 11, 12), doubled.
    assert_eq!(quartile_values_result, Ok((20, 22, 24)));
}

// [1   2   3   4]   [5   6   7   8]
//        |        |        |
//        Q1       Q2       Q3
#[test]
fn get_quartile_values_even_set_even_halves() {
    let data: Vec<i64> = vec![1, 2, 3, 4, 5, 6, 7, 8];
    let quartile_values_result = get_quartile_values(&data);

    // (2.5, 4.5, 6.5), doubled.
    assert_eq!(quartile_values_result, Ok((5, 9, 13)));
}

// [1   2   3]   [4   5   6]
//      |      |      |
//      Q1     Q2     Q3
#[test]
fn get_quartile_values_even_set_odd_halves() {
    let data: Vec<i64> = vec![1, 2, 3, 4, 5, 6];
    let quartile_values_result = get_quartile_values(&data);

    // (2, 3.5, 5), doubled.
    assert_eq!(quartile_values_result, Ok((4, 7, 10)));
}

// [1   2   3   4]   5   [6   7   8   9]
//        |          |          |
//        Q1         Q2         Q3
#[test]
fn get_quartile_values_odd_set_even_halves() {
    let data: Vec<i64> = vec![1, 2, 3, 4, 5, 6, 7, 8, 9];
    let quartile_values_result = get_quartile_values(&data);

    // (2.5, 5, 7.5), doubled.
    assert_eq!(quartile_values_result, Ok((5, 10, 15)));
}

// [1   2   3   4   5]   6   [7   8   9   10   11]
//          |            |            |
//          Q1           Q2           Q3
#[test]
fn get_quartile_values_odd_set_odd_halves() {
    let data: Vec<i64> = vec![1, 2, 3, 4, 5, 6, 7, 8, 9, 10, 11];
    let quartile_values_result = get_quartile_values(&data);

    // (3, 6, 9), doubled.
    assert_eq!(quartile_values_result, Ok((6, 12, 18)));
}

#[test]
fn get_quartile_values_float_set_of_two() {
    // 10.27 and 12.9, held exactly in hundredths.
    let data: Vec<i64> = vec![1027, 1290];
    let quartile_values_result = get_quartile_values(&data);

    // (10.27, 11.585, 12.9) in hundredths, doubled.
    assert_eq!(quartile_values_result, Ok((2054, 2317, 2580)));
}

#[test]
fn get_quartile_values_float_set_of_three() {
    // 10.167, 11.917 and 12.3, held exactly in thousandths.
    let data: Vec<i64> = vec![10167, 11917, 12300];
    let quartile_values_result = get_quartile_values(&data);

    // (10.167, 11.917, 12.3) in thousandths, doubled.
    assert_eq!(quartile_values_result, Ok((20334, 23834, 24600)));
}

#[test]
fn median_empty_set_fails() {
    let data: Vec<i64> = vec![];

    assert_eq!(median(&data), Err(ErrorMessage::MedianFunctionFailed));
}

#[test]
fn median_odd_set_is_middle_element() {
    let data: Vec<i64> = vec![1, 2, 5];

    // 2, doubled.
    assert_eq!(median(&data), Ok(4));
}

#[test]
fn median_even_set_is_mean_of_middle_elements() {
    let data: Vec<i64> = vec![10, 13];

    // 11.5, doubled.
    assert_eq!(median(&data), Ok(23));
}

#[test]
fn error_messages_are_stable() {
    assert_eq!(
        get_error_message(ErrorMessage::MedianFunctionFailed),
        "Cannot calculate median of data set"
    );
    assert_eq!(
        get_error_message(ErrorMessage::MinimumSetForQuartile),
        "Cannot calculate the quartile values of a data set with less than 2 elements"
    );
    assert_eq!(
        get_error_message(ErrorMessage::NanError),
        "The data set contains one or more NaNs"
    );
    assert_eq!(
        get_error_message(ErrorMessage::ToPrimitiveCast),
        "Had issues casting the sample values to the working numeric type"
    );
}
