use dump_analyser::correlate::PduStat;
use dump_analyser::stats::{
    cycle_delta_series, histogram, percentile, round_trip_series, sorted_copy, DumpFileStats,
};

#[test]
fn concrete_series_statistics() {
    let data: Vec<u64> = vec![10, 20, 30, 40, 100];
    let s = DumpFileStats::new(&data);
    assert_eq!(s.min, 10);
    assert_eq!(s.max, 100);
    assert_eq!(s.mean, 40);
    // Sample variance: (5·13000 − 200²) / (5·4) = 25000 / 20.
    assert_eq!(s.variance, 1250);
    // Integer square root of 1250.
    assert_eq!(s.std_dev, 35);
    // Nearest rank: p50 of five elements is the third smallest.
    assert_eq!(s.p50, 30);
    assert_eq!(s.p25, 20);
    assert_eq!(s.p90, 100);
    assert_eq!(s.p99, 100);
}

#[test]
fn percentile_nearest_rank_examples() {
    let data: Vec<u64> = vec![10, 20, 30, 40, 100];
    assert_eq!(percentile(&data, 50), 30);
    assert_eq!(percentile(&data, 0), 10);
    assert_eq!(percentile(&data, 100), 100);
    let one: Vec<u64> = vec![42];
    assert_eq!(percentile(&one, 50), 42);
}

#[test]
fn percentile_of_unsorted_input() {
    let data: Vec<u64> = vec![100, 10, 40, 30, 20];
    assert_eq!(percentile(&data, 50), 30);
}

#[test]
fn sorted_copy_sorts() {
    let data: Vec<u64> = vec![5, 3, 3, 9, 1];
    assert_eq!(sorted_copy(&data), vec![1, 3, 3, 5, 9]);
}

#[test]
fn single_element_series() {
    let data: Vec<u64> = vec![7];
    let s = DumpFileStats::new(&data);
    assert_eq!(s.min, 7);
    assert_eq!(s.max, 7);
    assert_eq!(s.mean, 7);
    assert_eq!(s.variance, 0);
    assert_eq!(s.std_dev, 0);
    assert_eq!(s.p50, 7);
}

#[test]
fn histogram_conserves_counts() {
    let data: Vec<u64> = vec![10, 20, 30, 40, 100];
    let counts = histogram(&data);
    // max 100 gives bucket width 1: one bucket per nanosecond in [0, 100].
    assert_eq!(counts.len(), 101);
    let total: u64 = counts.iter().sum();
    assert_eq!(total, data.len() as u64);
    assert_eq!(counts[10], 1);
    assert_eq!(counts[100], 1);
    assert_eq!(counts[0], 0);
}

#[test]
fn histogram_wide_range_conserves_counts() {
    let data: Vec<u64> = vec![1, 999_999, 2_000_000, 2_000_000, 123_456, 0];
    let counts = histogram(&data);
    let total: u64 = counts.iter().sum();
    assert_eq!(total, data.len() as u64);
    // Width is max/1000 + 1 = 2001; the largest value lands in the last bucket.
    assert_eq!(counts.len() as u64, 2_000_000 / 2001 + 1);
}

fn stat(tx: u64, rx: u64, delta: u64) -> PduStat {
    PduStat {
        scenario: "s".to_string(),
        packet_number: 0,
        index: 0,
        command: "FPRD".to_string(),
        tx_time: tx,
        rx_time: rx,
        delta_time: delta,
    }
}

#[test]
fn round_trip_series_extracts_deltas() {
    let pairs = vec![stat(0, 10, 10), stat(5, 25, 20), stat(9, 39, 30)];
    assert_eq!(round_trip_series(&pairs), vec![10, 20, 30]);
}

#[test]
fn cycle_delta_series_is_consecutive_tx_differences() {
    let pairs = vec![stat(0, 1, 1), stat(100, 101, 1), stat(250, 251, 1)];
    assert_eq!(cycle_delta_series(&pairs), vec![100, 150]);
    let one = vec![stat(0, 1, 1)];
    assert_eq!(cycle_delta_series(&one), Vec::<u64>::new());
    assert_eq!(cycle_delta_series(&Vec::new()), Vec::<u64>::new());
}
