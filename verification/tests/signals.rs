#![allow(non_snake_case)]
use stock_cli::types::{MaxPrice, MinPrice, PriceDifference, WindowedSMA};

fn averages(signal: &WindowedSMA, series: &[f64]) -> Option<Vec<f64>> {
    let count = signal.count(series.len())?;
    let mut out = Vec::new();
    for i in 0..count {
        let (first, end) = signal.window(series.len(), i).unwrap();
        out.push(series[first..end].iter().sum::<f64>() / (end - first) as f64);
    }
    Some(out)
}

fn rank(price: &f64) -> i64 {
    let bits = price.to_bits() as i64;
    bits ^ ((((bits >> 63) as u64) >> 1) as i64)
}

fn lowest(signal: &MinPrice, series: &[f64]) -> Option<f64> {
    let ranks: Vec<i64> = series.iter().map(rank).collect();
    signal.position(&ranks).map(|at| series[at])
}

fn highest(signal: &MaxPrice, series: &[f64]) -> Option<f64> {
    let ranks: Vec<i64> = series.iter().map(rank).collect();
    signal.position(&ranks).map(|at| series[at])
}

fn difference(signal: &PriceDifference, series: &[f64]) -> Option<(f64, f64)> {
    let (first, last) = signal.endpoints(series.len())?;
    let abs_diff = series[last] - series[first];
    let base = if series[first] == 0.0 { 1.0 } else { series[first] };
    Some((abs_diff, abs_diff / base))
}

#[test]
fn test_PriceDifference_calculate() {
    let signal = PriceDifference {};
    assert_eq!(difference(&signal, &[]), None);
    assert_eq!(difference(&signal, &[1.0]), Some((0.0, 0.0)));
    assert_eq!(difference(&signal, &[1.0, 0.0]), Some((-1.0, -1.0)));
    assert_eq!(
        difference(&signal, &[2.0, 3.0, 5.0, 6.0, 1.0, 2.0, 10.0]),
        Some((8.0, 4.0))
    );
    assert_eq!(
        difference(&signal, &[0.0, 3.0, 5.0, 6.0, 1.0, 2.0, 1.0]),
        Some((1.0, 1.0))
    );
}

#[test]
fn test_parallel_PriceDifference_calculate() {
    let signal = PriceDifference {};
    let (empty_series, single_value_series, multiple_vals) = (
        difference(&signal, &[]),
        difference(&signal, &[1.0]),
        difference(&signal, &[1.0, 0.0]),
    );

    assert_eq!(empty_series, None);
    assert_eq!(single_value_series, Some((0.0, 0.0)));
    assert_eq!(multiple_vals, Some((-1.0, -1.0)));
}

#[test]
fn test_parallel_MinPrice_calculate() {
    let signal = MinPrice {};
    let (empty_series, single_value_series, multiple_vals) = (
        lowest(&signal, &[]),
        lowest(&signal, &[1.0]),
        lowest(&signal, &[1.0, 0.0]),
    );

    assert_eq!(empty_series, None);
    assert_eq!(single_value_series, Some(1.0));
    assert_eq!(multiple_vals, Some(0.0));
}

#[test]
fn test_MinPrice_calculate() {
    let signal = MinPrice {};
    assert_eq!(lowest(&signal, &[]), None);
    assert_eq!(lowest(&signal, &[1.0]), Some(1.0));
    assert_eq!(lowest(&signal, &[1.0, 0.0]), Some(0.0));
    assert_eq!(lowest(&signal, &[2.0, 3.0, 5.0, 6.0, 1.0, 2.0, 10.0]), Some(1.0));
    assert_eq!(lowest(&signal, &[0.0, 3.0, 5.0, 6.0, 1.0, 2.0, 1.0]), Some(0.0));
}

#[test]
fn test_MaxPrice_calculate() {
    let signal = MaxPrice {};
    assert_eq!(highest(&signal, &[]), None);
    assert_eq!(highest(&signal, &[1.0]), Some(1.0));
    assert_eq!(highest(&signal, &[1.0, 0.0]), Some(1.0));
    assert_eq!(highest(&signal, &[2.0, 3.0, 5.0, 6.0, 1.0, 2.0, 10.0]), Some(10.0));
    assert_eq!(highest(&signal, &[0.0, 3.0, 5.0, 6.0, 1.0, 2.0, 1.0]), Some(6.0));
}

#[test]
fn min_position_is_the_first_least() {
    let signal = MinPrice {};
    assert_eq!(signal.position(&vec![]), None);
    assert_eq!(signal.position(&vec![7]), Some(0));
    assert_eq!(signal.position(&vec![3, 1, 2, 1, 5]), Some(1));
    assert_eq!(signal.position(&vec![4, 4, 4]), Some(0));
    assert_eq!(signal.position(&vec![0, -9, i64::MIN, i64::MAX, i64::MIN]), Some(2));
}

#[test]
fn max_position_is_the_first_greatest() {
    let signal = MaxPrice {};
    assert_eq!(signal.position(&vec![]), None);
    assert_eq!(signal.position(&vec![7]), Some(0));
    assert_eq!(signal.position(&vec![3, 9, 2, 9, 5]), Some(1));
    assert_eq!(signal.position(&vec![4, 4, 4]), Some(0));
    assert_eq!(signal.position(&vec![0, i64::MAX, i64::MIN, i64::MAX]), Some(1));
}

#[test]
fn ranks_order_as_the_prices_do() {
    let prices = [-1.5e300, -2.0, -0.5, 0.0, 1e-300, 0.25, 1.0, 10.0, 1.5e300];
    for pair in prices.windows(2) {
        assert!(rank(&pair[0]) < rank(&pair[1]));
    }
    assert_eq!(lowest(&MinPrice {}, &[3.5, -2.25, 8.0, -2.0]), Some(-2.25));
    assert_eq!(highest(&MaxPrice {}, &[3.5, -2.25, 8.0, -2.0]), Some(8.0));
}

#[test]
fn endpoints_are_first_and_last() {
    let signal = PriceDifference {};
    assert_eq!(signal.endpoints(0), None);
    assert_eq!(signal.endpoints(1), Some((0, 0)));
    assert_eq!(signal.endpoints(7), Some((0, 6)));
    assert_eq!(signal.endpoints(usize::MAX), Some((0, usize::MAX - 1)));
}

#[test]
fn test_WindowedSMA_calculate() {
    let series = vec![2.0, 4.5, 5.3, 6.5, 4.7];

    let signal = WindowedSMA { window_size: 3 };
    assert_eq!(
        averages(&signal, &series),
        Some(vec![3.9333333333333336, 5.433333333333334, 5.5])
    );

    let signal = WindowedSMA { window_size: 5 };
    assert_eq!(averages(&signal, &series), Some(vec![4.6]));

    let signal = WindowedSMA { window_size: 10 };
    assert_eq!(averages(&signal, &series), Some(vec![]));
}

#[test]
fn window_count_follows_the_series_length() {
    let signal = WindowedSMA { window_size: 3 };
    assert_eq!(signal.count(5), Some(3));
    assert_eq!(signal.count(3), Some(1));
    assert_eq!(signal.count(2), Some(0));
    assert_eq!(signal.count(1), Some(0));
    assert_eq!(WindowedSMA { window_size: 30 }.count(250), Some(221));
    assert_eq!(WindowedSMA { window_size: usize::MAX }.count(usize::MAX), Some(1));
    assert_eq!(WindowedSMA { window_size: 2 }.count(usize::MAX), Some(usize::MAX - 1));
}

#[test]
fn no_averages_for_empty_series_or_tiny_window() {
    assert_eq!(WindowedSMA { window_size: 3 }.count(0), None);
    assert_eq!(WindowedSMA { window_size: 1 }.count(5), None);
    assert_eq!(WindowedSMA { window_size: 0 }.count(5), None);
    assert_eq!(WindowedSMA { window_size: 0 }.count(0), None);
    assert_eq!(averages(&WindowedSMA { window_size: 3 }, &[]), None);
    assert_eq!(averages(&WindowedSMA { window_size: 1 }, &[1.0, 2.0]), None);
}

#[test]
fn windows_slide_one_price_at_a_time() {
    let signal = WindowedSMA { window_size: 3 };
    assert_eq!(signal.window(5, 0), Some((0, 3)));
    assert_eq!(signal.window(5, 1), Some((1, 4)));
    assert_eq!(signal.window(5, 2), Some((2, 5)));
    assert_eq!(signal.window(5, 3), None);
    assert_eq!(signal.window(0, 0), None);
    assert_eq!(WindowedSMA { window_size: 1 }.window(5, 0), None);
}

#[test]
fn last_window_ends_the_series() {
    let signal = WindowedSMA { window_size: 30 };
    assert_eq!(signal.last_window(45), Some((15, 45)));
    assert_eq!(signal.last_window(30), Some((0, 30)));
    assert_eq!(signal.last_window(29), None);
    assert_eq!(signal.last_window(0), None);
    assert_eq!(WindowedSMA { window_size: 1 }.last_window(10), None);
}
