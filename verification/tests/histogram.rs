use pubsub_rs::tools::histogram::Histogram;

#[test]
fn test_histogram_add_and_top() {
    let mut hist = Histogram::new();
    hist.add(1);
    hist.add(2);
    hist.add(1);

    assert_eq!(hist.total_count(), 3);
    assert_eq!(hist.top_value(), Some(&1));
    assert_eq!(hist.top_count(), Some(2));
    assert_eq!(hist.top_value_with_count(), Some((&1, 2)));
}

#[test]
fn test_histogram_clear() {
    let mut hist = Histogram::new();
    hist.add(1);
    hist.add(2);
    hist.clear();

    assert_eq!(hist.total_count(), 0);
    assert_eq!(hist.top_value(), None);
    assert_eq!(hist.top_count(), None);
}

#[test]
fn test_string_histogram() {
    let mut hist = Histogram::new();
    hist.add("apple".to_string());
    hist.add("banana".to_string());
    hist.add("apple".to_string());

    assert_eq!(hist.total_count(), 3);
    assert_eq!(hist.top_value(), Some(&"apple".to_string()));
    assert_eq!(hist.top_count(), Some(2));
    assert_eq!(hist.top_value_with_count(), Some((&"apple".to_string(), 2)));
}

#[test]
fn histogram_test_default_trait() {
    let hist: Histogram<u32> = Histogram::default();
    assert_eq!(hist.total_count(), 0);
    assert_eq!(hist.top_value(), None);
    assert_eq!(hist.top_count(), None);
}

// On a tie the value that reached the count first stays on top.
#[test]
fn histogram_tie_keeps_first_to_reach() {
    let mut hist = Histogram::new();
    hist.add(7u32);
    hist.add(9);
    hist.add(9);
    hist.add(7);
    assert_eq!(hist.top_value_with_count(), Some((&9, 2)));
    hist.add(7);
    assert_eq!(hist.top_value_with_count(), Some((&7, 3)));
    let mut counts = hist.occurrences();
    counts.sort();
    assert_eq!(counts, vec![(7, 3), (9, 2)]);
}

#[test]
fn median_value_of_odd_sample_count() {
    let mut hist = Histogram::new();
    for v in [1, 2, 3, 4, 5] {
        hist.add(v);
    }
    assert_eq!(hist.median_value(), Some(3));
}

#[test]
fn median_value_of_even_sample_count_is_upper_middle() {
    let mut hist = Histogram::new();
    for v in [10, 40, 20, 30] {
        hist.add(v);
    }
    // 4 samples: more than 2 must sort before or with the median
    assert_eq!(hist.median_value(), Some(30));
}

#[test]
fn median_value_weighs_repeated_samples() {
    let mut hist = Histogram::new();
    for v in [7, 7, 7, 1, 100] {
        hist.add(v);
    }
    assert_eq!(hist.median_value(), Some(7));
}

#[test]
fn median_value_of_empty_histogram_is_none() {
    let hist: Histogram<u32> = Histogram::new();
    assert_eq!(hist.median_value(), None);
}
